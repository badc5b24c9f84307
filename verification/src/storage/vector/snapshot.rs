//! Snapshot bookkeeping: metadata, directory naming, and the order in
//! which snapshots are kept and pruned. Paths are `/`-separated strings.

use vstd::prelude::*;
use vstd::string::StringExecFns;
use vstd::multiset::Multiset;
use crate::text::{decimal, u64_to_decimal};
use crate::codec::push_all;
use super::mmap::MmapVectorSegmentMut;

verus! {

/// Metadata stored with a snapshot.
#[derive(Debug, Clone)]
pub struct SnapshotMeta {
    /// Snapshot version
    pub version: u32,
    /// Creation timestamp (nanoseconds since epoch)
    pub created_at: u64,
    /// Number of segments in snapshot
    pub segment_count: usize,
    /// Total vector count
    pub vector_count: usize,
    /// Merkle root
    pub merkle_root: Vec<u8>,
}

impl SnapshotMeta {
    /// The metadata of a snapshot of one segment taken at `created_at`:
    /// format version 1, one segment, the segment's vector count, and the
    /// given Merkle root.
    pub fn of_segment(created_at: u64, segment: &MmapVectorSegmentMut, merkle_root: &[u8]) -> (r: Self)
        ensures
            r.version == 1,
            r.created_at == created_at,
            r.segment_count == 1,
            r.vector_count == segment.len(),
            r.merkle_root@ == merkle_root@,
    {
        let mut root: Vec<u8> = Vec::new();
        push_all(&mut root, merkle_root);
        SnapshotMeta {
            version: 1,
            created_at,
            segment_count: 1,
            vector_count: segment.count(),
            merkle_root: root,
        }
    }
}

/// `base` joined with the relative component `name`: a `/` goes between
/// them unless `base` is empty or already ends with one.
pub open spec fn join_path(base: Seq<char>, name: Seq<char>) -> Seq<char> {
    if base.len() == 0 || base.last() == '/' {
        base + name
    } else {
        base + seq!['/'] + name
    }
}

/// Joins `base` and the relative component `name` (see `join_path`).
pub fn join(base: &str, name: &str) -> (r: String)
    ensures
        r@ == join_path(base@, name@),
{
    let mut out = String::from_str(base);
    let n = base.unicode_len();
    if n > 0 && base.get_char(n - 1) != '/' {
        out.append("/");
        proof { reveal_strlit("/"); }
    }
    out.append(name);
    proof {
        reveal_strlit("/");
        assert(seq!['/'] =~= "/"@);
    }
    out
}

/// The name of the directory of a snapshot taken at `timestamp`.
pub open spec fn snapshot_dir_name_of(timestamp: u64) -> Seq<char> {
    "snapshot_"@ + decimal(timestamp as nat)
}

/// The name of the directory of a snapshot taken at `timestamp`:
/// `snapshot_<timestamp>`.
pub fn snapshot_dir_name(timestamp: u64) -> (r: String)
    ensures
        r@ == snapshot_dir_name_of(timestamp),
{
    let mut s = String::from_str("snapshot_");
    let digits = u64_to_decimal(timestamp);
    s.append(digits.as_str());
    s
}

/// Whether a directory name is a snapshot's: it starts with `snapshot_`.
pub fn is_snapshot_dir_name(name: &str) -> (r: bool)
    ensures
        r == (name@.len() >= "snapshot_"@.len() && name@.subrange(0, "snapshot_"@.len() as int)
            == "snapshot_"@),
{
    let prefix = "snapshot_";
    proof { reveal_strlit("snapshot_"); }
    let pl = prefix.unicode_len();
    let nl = name.unicode_len();
    if nl < pl {
        return false;
    }
    let mut i: usize = 0;
    while i < pl
        invariant
            prefix@ == "snapshot_"@,
            pl == prefix@.len(),
            nl == name@.len(),
            pl <= nl,
            i <= pl,
            forall|j: int| 0 <= j < i ==> name@[j] == prefix@[j],
        decreases pl - i,
    {
        if name.get_char(i) != prefix.get_char(i) {
            assert(name@.subrange(0, pl as int)[i as int] != prefix@[i as int]);
            return false;
        }
        i = i + 1;
    }
    assert(name@.subrange(0, pl as int) =~= prefix@);
    true
}

/// `s` is ordered newest first.
pub open spec fn newest_first(s: Seq<(String, SnapshotMeta)>) -> bool {
    forall|i: int, j: int| 0 <= i < j < s.len() ==> s[i].1.created_at >= s[j].1.created_at
}

/// Sorts snapshots newest first; snapshots taken at the same time keep
/// their order.
pub fn sort_newest_first(snapshots: Vec<(String, SnapshotMeta)>) -> (r: Vec<(String, SnapshotMeta)>)
    ensures
        newest_first(r@),
        r@.to_multiset() == snapshots@.to_multiset(),
{
    broadcast use vstd::seq_lib::group_to_multiset_ensures;
    let mut out: Vec<(String, SnapshotMeta)> = Vec::new();
    let mut rest = snapshots;
    let ghost orig = rest@;
    proof {
        assert(rest@.to_multiset() == orig.to_multiset());
    }
    while rest.len() > 0
        invariant
            newest_first(out@),
            out@.to_multiset().add(rest@.to_multiset()) == orig.to_multiset(),
        decreases rest@.len(),
    {
        let ghost before_rest = rest@;
        let item = rest.remove(0);
        assert(before_rest =~= seq![item] + rest@);
        proof {
            vstd::seq_lib::lemma_multiset_commutative(seq![item], rest@);
        }
        let t = item.1.created_at;
        let mut pos: usize = out.len();
        while pos > 0 && out[pos - 1].1.created_at < t
            invariant
                pos <= out@.len(),
                newest_first(out@),
                forall|k: int| pos <= k < out@.len() ==> out@[k].1.created_at < t,
            decreases pos,
        {
            pos = pos - 1;
        }
        let ghost before = out@;
        out.insert(pos, item);
        proof {
            assert(out@ =~= before.subrange(0, pos as int) + seq![item] + before.subrange(
                pos as int,
                before.len() as int,
            ));
            assert forall|i: int, j: int| 0 <= i < j < out@.len() implies out@[i].1.created_at
                >= out@[j].1.created_at by {
                if i < pos && j == pos {
                    if pos > 0 {
                        assert(before[pos - 1].1.created_at >= t);
                        assert(before[i].1.created_at >= before[pos - 1].1.created_at);
                    }
                } else if i < pos && j > pos {
                    assert(before[i].1.created_at >= before[j - 1].1.created_at);
                } else if i == pos {
                    assert(before[j - 1].1.created_at < t);
                } else if i > pos {
                    assert(before[i - 1].1.created_at >= before[j - 1].1.created_at);
                }
            }
            vstd::seq_lib::lemma_multiset_commutative(before.subrange(0, pos as int), seq![item]);
            vstd::seq_lib::lemma_multiset_commutative(
                before.subrange(0, pos as int) + seq![item],
                before.subrange(pos as int, before.len() as int),
            );
            vstd::seq_lib::lemma_multiset_commutative(
                before.subrange(0, pos as int),
                before.subrange(pos as int, before.len() as int),
            );
            assert(before =~= before.subrange(0, pos as int) + before.subrange(pos as int, before.len() as int));
        }
    }
    proof {
        assert(rest@ =~= Seq::<(String, SnapshotMeta)>::empty());
        assert(out@.to_multiset().add(Multiset::empty()) =~= out@.to_multiset());
    }
    out
}

/// Snapshot bookkeeping under a base directory.
pub struct VectorSnapshotManager {
    base_path: String,
}

impl VectorSnapshotManager {
    /// The base directory.
    pub closed spec fn base(self) -> Seq<char> {
        self.base_path@
    }

    /// A manager for snapshots under `base_path`.
    pub fn new(base_path: &str) -> (r: Self)
        ensures
            r.base() == base_path@,
    {
        VectorSnapshotManager { base_path: String::from_str(base_path) }
    }

    /// The base directory.
    pub fn base_path(&self) -> (r: &str)
        ensures
            r@ == self.base(),
    {
        self.base_path.as_str()
    }

    /// The directory of a snapshot taken at `timestamp`.
    pub fn snapshot_path(&self, timestamp: u64) -> (r: String)
        ensures
            r@ == join_path(self.base(), snapshot_dir_name_of(timestamp)),
    {
        let name = snapshot_dir_name(timestamp);
        join(self.base_path.as_str(), name.as_str())
    }

    /// The path of a segment's files: `segment_<id>` under the base.
    pub fn get_segment_path(&self, segment_id: u64) -> (r: String)
        ensures
            r@ == join_path(self.base(), "segment_"@ + decimal(segment_id as nat)),
    {
        let mut name = String::from_str("segment_");
        let digits = u64_to_decimal(segment_id);
        name.append(digits.as_str());
        join(self.base_path.as_str(), name.as_str())
    }

    /// The newest of the listed snapshots, if any.
    pub fn get_latest_snapshot(&self, listed: Vec<(String, SnapshotMeta)>) -> (r: Option<
        (String, SnapshotMeta),
    >)
        ensures
            if listed@.len() == 0 {
                r is None
            } else {
                r matches Some(s) && listed@.contains(s) && forall|i: int|
                    0 <= i < listed@.len() ==> listed@[i].1.created_at <= s.1.created_at
            },
    {
        broadcast use vstd::seq_lib::group_to_multiset_ensures;
        let mut sorted = sort_newest_first(listed);
        if sorted.len() == 0 {
            proof {
                assert(listed@.to_multiset().len() == 0);
            }
            return None;
        }
        let ghost sv = sorted@;
        let first = sorted.remove(0);
        proof {
            assert(sv[0] == first);
            assert(sv.contains(first));
            assert(listed@.to_multiset().count(first) > 0);
            assert forall|i: int| 0 <= i < listed@.len() implies listed@[i].1.created_at <= first.1.created_at by {
                let x = listed@[i];
                assert(listed@.contains(x));
                assert(sv.to_multiset().count(x) > 0);
                assert(sv.contains(x));
                let k = choose|k: int| 0 <= k < sv.len() && sv[k] == x;
                if k > 0 {
                    assert(sv[0].1.created_at >= sv[k].1.created_at);
                }
            }
        }
        Some(first)
    }

    /// The snapshots that pruning removes from a newest-first list: all
    /// but the first `keep`.
    pub fn snapshots_to_remove(sorted: Vec<(String, SnapshotMeta)>, keep: usize) -> (r: Vec<(String, SnapshotMeta)>)
        ensures
            r@ == if sorted@.len() > keep {
                sorted@.subrange(keep as int, sorted@.len() as int)
            } else {
                Seq::empty()
            },
    {
        let mut sorted = sorted;
        if sorted.len() > keep {
            sorted.split_off(keep)
        } else {
            Vec::new()
        }
    }
}

} // verus!
