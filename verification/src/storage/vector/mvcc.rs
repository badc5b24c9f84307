//! Segment-level multi-version storage of vectors. New vectors go to the
//! active segment; the latest slot of each vector ID is tracked, and
//! deletes place tombstones. Visibility is decided per segment, not per
//! vector.

use std::collections::{HashMap, HashSet};
use vstd::prelude::*;
use crate::error::{Error, Result};
use super::config::VectorConfig;
use super::segment::{push_error, pushed, VectorSegment};
use super::wal_logger::{VectorWalEntry, VectorWalEntryView, VectorWalOp};

verus! {

broadcast use vstd::std_specs::hash::group_hash_axioms;

/// State of a vector segment.
pub enum SegmentState {
    /// Receives new vectors.
    Active(VectorSegment),
    /// Read-only; can be searched.
    Immutable(VectorSegment),
    /// Being merged from the listed segments; excluded from reads.
    Merging(Vec<u64>),
}

/// The segment a state holds, unless it is being merged.
pub open spec fn held_segment(st: SegmentState) -> Option<VectorSegment> {
    match st {
        SegmentState::Active(s) => Some(s),
        SegmentState::Immutable(s) => Some(s),
        SegmentState::Merging(_) => None,
    }
}

/// The first position of segment `id` among the entries.
pub open spec fn position_of(es: Seq<(u64, SegmentState)>, id: u64) -> Option<int>
    decreases es.len(),
{
    if es.len() == 0 {
        None
    } else {
        match position_of(es.drop_last(), id) {
            Some(i) => Some(i),
            None => if es.last().0 == id {
                Some(es.len() - 1)
            } else {
                None
            },
        }
    }
}

/// The segment with ID `id`, unless it is absent or being merged.
pub open spec fn segment_with_id(es: Seq<(u64, SegmentState)>, id: u64) -> Option<VectorSegment> {
    match position_of(es, id) {
        Some(i) => held_segment(es[i].1),
        None => None,
    }
}

/// Slot `loc` (segment ID, index) holds vector `v`.
pub open spec fn slot_holds(es: Seq<(u64, SegmentState)>, loc: (u64, usize), v: i64) -> bool {
    match segment_with_id(es, loc.0) {
        Some(s) => loc.1 < s.count && s.vector_ids@[loc.1 as int] == v,
        None => false,
    }
}

/// The segments that reads see, in entry order: all but those being merged.
pub open spec fn live_segments(es: Seq<(u64, SegmentState)>) -> Seq<VectorSegment>
    decreases es.len(),
{
    if es.len() == 0 {
        Seq::empty()
    } else {
        let prev = live_segments(es.drop_last());
        match held_segment(es.last().1) {
            Some(s) => prev.push(s),
            None => prev,
        }
    }
}

/// The number of vectors a state holds.
pub open spec fn held_count(st: SegmentState) -> nat {
    match held_segment(st) {
        Some(s) => s.count as nat,
        None => 0,
    }
}

/// The number of vectors over all segments but those being merged.
pub open spec fn total_count(es: Seq<(u64, SegmentState)>) -> nat
    decreases es.len(),
{
    if es.len() == 0 {
        0
    } else {
        total_count(es.drop_last()) + held_count(es.last().1)
    }
}

/// The position found for `id` is its first occurrence; none means it
/// does not occur.
proof fn lemma_position_of(es: Seq<(u64, SegmentState)>, id: u64)
    ensures
        match position_of(es, id) {
            Some(k) => 0 <= k < es.len() && es[k].0 == id && forall|j: int|
                0 <= j < k ==> es[j].0 != id,
            None => forall|j: int| 0 <= j < es.len() ==> es[j].0 != id,
        },
    decreases es.len(),
{
    if es.len() > 0 {
        let init = es.drop_last();
        lemma_position_of(init, id);
        assert(forall|j: int| 0 <= j < init.len() ==> init[j] == es[j]);
    }
}

/// Where IDs are distinct, each entry is found at its own position.
proof fn lemma_position_unique(es: Seq<(u64, SegmentState)>, k: int)
    requires
        0 <= k < es.len(),
        forall|i: int, j: int| 0 <= i < j < es.len() ==> es[i].0 != es[j].0,
    ensures
        position_of(es, es[k].0) == Some(k),
{
    lemma_position_of(es, es[k].0);
}

/// Totals over prefixes never exceed the whole.
proof fn lemma_total_prefix(es: Seq<(u64, SegmentState)>, n: int)
    requires
        0 <= n <= es.len(),
    ensures
        total_count(es.take(n)) <= total_count(es),
    decreases es.len() - n,
{
    if n < es.len() {
        lemma_total_prefix(es, n + 1);
        assert(es.take(n + 1).drop_last() =~= es.take(n));
    } else {
        assert(es.take(n) =~= es);
    }
}

/// `b` has the model of `a`.
pub open spec fn same_model(a: VectorMvcc, b: VectorMvcc) -> bool {
    &&& b.entries() == a.entries()
    &&& b.active_id() == a.active_id()
    &&& b.locations() == a.locations()
    &&& b.tombstones() == a.tombstones()
    &&& b.configuration() == a.configuration()
}

/// Inserting `vector_id` with `embedding` into `a` gives `b` and `r`:
/// without an active segment, `NoActiveSegment`; where the active segment
/// refuses the vector, its error; else the vector is appended to the
/// active segment, its slot is recorded, and the segment's ID returned.
/// Nothing changes on an error.
pub open spec fn insert_outcome(
    a: VectorMvcc,
    b: VectorMvcc,
    vector_id: i64,
    embedding: Seq<u32>,
    r: Result<u64>,
) -> bool {
    match a.active_position() {
        None => r == Err::<u64, Error>(Error::NoActiveSegment) && same_model(a, b),
        Some(i) => {
            let sid = a.entries()[i].0;
            let s = a.active_segment_of().unwrap();
            match push_error(s, embedding.len()) {
                Some(e) => r == Err::<u64, Error>(e) && same_model(a, b),
                None => {
                    &&& r == Ok::<u64, Error>(sid)
                    &&& b.entries().len() == a.entries().len()
                    &&& b.entries() == a.entries().update(i, b.entries()[i])
                    &&& b.entries()[i].0 == sid
                    &&& b.entries()[i].1 matches SegmentState::Active(t) && pushed(
                        s,
                        t,
                        vector_id,
                        embedding,
                    )
                    &&& b.locations() == a.locations().insert(vector_id, (sid, s.count))
                    &&& b.tombstones() == a.tombstones()
                    &&& b.active_id() == a.active_id()
                    &&& b.configuration() == a.configuration()
                },
            }
        },
    }
}

/// Deleting `vector_id` from `a` gives `b` and `r`: an untracked ID is
/// `SegmentNotFound`; a deleted one is left as it is (`None`); else a
/// tombstone is placed and the segment of its slot returned.
pub open spec fn delete_outcome(a: VectorMvcc, b: VectorMvcc, vector_id: i64, r: Result<Option<u64>>) -> bool {
    if !a.locations().contains_key(vector_id) {
        r == Err::<Option<u64>, Error>(Error::SegmentNotFound) && same_model(a, b)
    } else if a.tombstones().contains(vector_id) {
        r == Ok::<Option<u64>, Error>(None) && same_model(a, b)
    } else {
        &&& r == Ok::<Option<u64>, Error>(Some(a.locations()[vector_id].0))
        &&& b.tombstones() == a.tombstones().insert(vector_id)
        &&& b.entries() == a.entries()
        &&& b.locations() == a.locations()
        &&& b.active_id() == a.active_id()
        &&& b.configuration() == a.configuration()
    }
}


/// Replaying the log records `es` on `a`, in order, ends in `b` with `r`:
/// an insert record with its ID and embedding is inserted, a delete
/// record with its ID is deleted, any other record changes nothing; the
/// first insert or delete that fails stops the replay with its error.
pub open spec fn replays(a: VectorMvcc, b: VectorMvcc, es: Seq<VectorWalEntryView>, r: Result<()>) -> bool
    decreases es.len(),
{
    if es.len() == 0 {
        r is Ok && same_model(a, b)
    } else {
        let e = es[0];
        let rest = es.drop_first();
        if e.operation == VectorWalOp::Insert && e.vector_id is Some && e.embedding is Some {
            exists|m: VectorMvcc, s: Result<u64>|
                #[trigger] insert_outcome(a, m, e.vector_id.unwrap(), e.embedding.unwrap(), s) && match s {
                    Err(x) => r == Err::<(), Error>(x) && same_model(m, b),
                    Ok(_) => replays(m, b, rest, r),
                }
        } else if e.operation == VectorWalOp::Delete && e.vector_id is Some {
            exists|m: VectorMvcc, s: Result<Option<u64>>|
                #[trigger] delete_outcome(a, m, e.vector_id.unwrap(), s) && match s {
                    Err(x) => r == Err::<(), Error>(x) && same_model(m, b),
                    Ok(_) => replays(m, b, rest, r),
                }
        } else {
            replays(a, b, rest, r)
        }
    }
}

/// The views of a list of log records.
pub open spec fn entries_view(es: Seq<VectorWalEntry>) -> Seq<VectorWalEntryView> {
    es.map_values(|e: VectorWalEntry| e@)
}

/// Vector storage with segment-level visibility.
pub struct VectorMvcc {
    segments: Vec<(u64, SegmentState)>,
    active_segment_id: Option<u64>,
    locations: HashMap<i64, (u64, usize)>,
    deleted: HashSet<i64>,
    config: VectorConfig,
}

impl VectorMvcc {
    /// The segments with their IDs, in the order they were added.
    pub closed spec fn entries(&self) -> Seq<(u64, SegmentState)> {
        self.segments@
    }

    /// The ID of the segment new vectors go to.
    pub closed spec fn active_id(&self) -> Option<u64> {
        self.active_segment_id
    }

    /// The latest slot (segment ID, index) of each vector ID.
    pub closed spec fn locations(&self) -> Map<i64, (u64, usize)> {
        self.locations@
    }

    /// The vector IDs deleted so far.
    pub closed spec fn tombstones(&self) -> Set<i64> {
        self.deleted@
    }

    /// The configuration the storage was made with.
    pub closed spec fn configuration(&self) -> VectorConfig {
        self.config
    }

    /// Segment IDs are distinct; each held segment is well formed and
    /// carries its entry's ID; each tracked vector sits at its slot; each
    /// tombstone names a tracked vector.
    pub open spec fn wf(&self) -> bool {
        &&& forall|i: int, j: int|
            0 <= i < j < self.entries().len() ==> self.entries()[i].0 != self.entries()[j].0
        &&& forall|i: int|
            0 <= i < self.entries().len() ==> match #[trigger] held_segment(self.entries()[i].1) {
                Some(s) => s.wf() && s.id == self.entries()[i].0,
                None => true,
            }
        &&& forall|v: i64|
            #[trigger] self.locations().contains_key(v) ==> slot_holds(
                self.entries(),
                self.locations()[v],
                v,
            )
        &&& self.tombstones().subset_of(self.locations().dom())
    }

    /// The position of the active segment, if the active ID names a
    /// segment in the active state.
    pub open spec fn active_position(&self) -> Option<int> {
        match self.active_id() {
            Some(sid) => match position_of(self.entries(), sid) {
                Some(i) => if self.entries()[i].1 is Active {
                    Some(i)
                } else {
                    None
                },
                None => None,
            },
            None => None,
        }
    }

    /// The segment new vectors go to.
    pub open spec fn active_segment_of(&self) -> Option<VectorSegment> {
        match self.active_position() {
            Some(i) => held_segment(self.entries()[i].1),
            None => None,
        }
    }

    /// `self` holds one empty active segment with ID `first_segment_id`,
    /// shaped by `config`, and tracks no vector.
    pub open spec fn is_fresh(&self, config: VectorConfig, first_segment_id: u64) -> bool {
        &&& self.entries().len() == 1
        &&& self.entries()[0].0 == first_segment_id
        &&& self.entries()[0].1 matches SegmentState::Active(s) && s.id == first_segment_id
            && s.count == 0 && s.dimensions == config.default_dimension && s.capacity
            == config.segment_capacity && s.created_txn == 1 && !s.is_immutable
        &&& self.active_id() == Some(first_segment_id)
        &&& self.locations() == Map::<i64, (u64, usize)>::empty()
        &&& self.tombstones() == Set::<i64>::empty()
        &&& self.configuration() == config
    }

    /// Storage with one empty active segment, `first_segment_id`, of the
    /// configured dimension and capacity.
    pub fn new(config: VectorConfig, first_segment_id: u64) -> (r: Self)
        requires
            config.default_dimension * config.segment_capacity <= usize::MAX,
        ensures
            r.wf(),
            r.is_fresh(config, first_segment_id),
    {
        let segment = VectorSegment::with_id(
            first_segment_id,
            config.default_dimension,
            config.segment_capacity,
            1,
        );
        let mut segments: Vec<(u64, SegmentState)> = Vec::new();
        segments.push((first_segment_id, SegmentState::Active(segment)));
        let r = VectorMvcc {
            segments,
            active_segment_id: Some(first_segment_id),
            locations: HashMap::new(),
            deleted: HashSet::new(),
            config,
        };
        assert(r.locations() =~= Map::<i64, (u64, usize)>::empty());
        assert(r.tombstones() =~= Set::<i64>::empty());
        r
    }

    /// The position of segment `id`.
    fn position(&self, id: u64) -> (r: Option<usize>)
        ensures
            match r {
                Some(i) => i < self.entries().len() && position_of(self.entries(), id) == Some(
                    i as int,
                ),
                None => position_of(self.entries(), id) is None,
            },
    {
        let mut i: usize = 0;
        while i < self.segments.len()
            invariant
                0 <= i <= self.segments@.len(),
                forall|j: int| 0 <= j < i ==> self.segments@[j].0 != id,
            decreases self.segments@.len() - i,
        {
            if self.segments[i].0 == id {
                proof {
                    lemma_position_of(self.segments@, id);
                }
                return Some(i);
            }
            i = i + 1;
        }
        proof {
            lemma_position_of(self.segments@, id);
        }
        None
    }

    /// Adds a vector to the active segment and records its slot; returns
    /// the segment's ID.
    pub fn insert(&mut self, vector_id: i64, embedding: &[u32]) -> (r: Result<u64>)
        requires
            old(self).wf(),
        ensures
            final(self).wf(),
            insert_outcome(*old(self), *final(self), vector_id, embedding@, r),
    {
        let sid = match self.active_segment_id {
            Some(s) => s,
            None => return Err(Error::NoActiveSegment),
        };
        let i = match self.position(sid) {
            Some(i) => i,
            None => return Err(Error::NoActiveSegment),
        };
        let active = match &self.segments[i].1 {
            SegmentState::Active(_) => true,
            _ => false,
        };
        if !active {
            return Err(Error::NoActiveSegment);
        }
        let ghost before = self.segments@;
        let (id, state) = self.segments.remove(i);
        let mut seg = match state {
            SegmentState::Active(seg) => seg,
            _ => return Err(Error::NoActiveSegment),
        };
        let ghost s = seg;
        assert(held_segment(before[i as int].1) == Some(s));
        let res = seg.push(vector_id, embedding);
        self.segments.insert(i, (id, SegmentState::Active(seg)));
        match res {
            Ok(idx) => {
                self.locations.insert(vector_id, (sid, idx));
                proof {
                    let es = self.segments@;
                    lemma_position_of(before, sid);
                    assert(es =~= before.update(i as int, es[i as int]));
                    assert(old(self).active_position() == Some(i as int));
                    assert forall|k: int| 0 <= k < es.len() implies match #[trigger] held_segment(
                        es[k].1,
                    ) {
                        Some(t) => t.wf() && t.id == es[k].0,
                        None => true,
                    } by {
                        if k != i {
                            assert(held_segment(before[k].1) == held_segment(es[k].1));
                        }
                    }
                    assert forall|v: i64| #[trigger]
                        self.locations().contains_key(v) implies slot_holds(
                        es,
                        self.locations()[v],
                        v,
                    ) by {
                        if v == vector_id {
                            lemma_position_unique(es, i as int);
                        } else {
                            assert(old(self).locations().contains_key(v));
                            let loc = old(self).locations()[v];
                            lemma_position_of(before, loc.0);
                            let k = position_of(before, loc.0).unwrap();
                            lemma_position_unique(es, k);
                        }
                    }
                }
                Ok(sid)
            },
            Err(e) => {
                assert(self.segments@ =~= before);
                Err(e)
            },
        }
    }

    /// Stores a new version of a vector, as `insert` does.
    pub fn update(&mut self, vector_id: i64, new_embedding: &[u32]) -> (r: Result<u64>)
        requires
            old(self).wf(),
        ensures
            final(self).wf(),
            insert_outcome(*old(self), *final(self), vector_id, new_embedding@, r),
    {
        self.insert(vector_id, new_embedding)
    }

    /// Places a tombstone on a tracked vector. Returns the segment of its
    /// slot when a tombstone was placed, `None` when it was deleted
    /// already.
    pub fn delete(&mut self, vector_id: i64) -> (r: Result<Option<u64>>)
        requires
            old(self).wf(),
        ensures
            final(self).wf(),
            delete_outcome(*old(self), *final(self), vector_id, r),
    {
        if !self.locations.contains_key(&vector_id) {
            return Err(Error::SegmentNotFound);
        }
        if self.deleted.contains(&vector_id) {
            return Ok(None);
        }
        let segment_id = match self.locations.get(&vector_id) {
            Some(loc) => loc.0,
            None => return Err(Error::SegmentNotFound),
        };
        self.deleted.insert(vector_id);
        Ok(Some(segment_id))
    }

    /// Whether a tombstone was placed on the vector.
    pub fn is_deleted(&self, vector_id: i64) -> (r: bool)
        ensures
            r == self.tombstones().contains(vector_id),
    {
        self.deleted.contains(&vector_id)
    }

    /// The segments reads see, in entry order: all but those being merged.
    pub fn visible_segments(&self) -> (r: Vec<&VectorSegment>)
        ensures
            r@.len() == live_segments(self.entries()).len(),
            forall|k: int| 0 <= k < r@.len() ==> *r@[k] == live_segments(self.entries())[k],
    {
        let mut out: Vec<&VectorSegment> = Vec::new();
        let mut i: usize = 0;
        while i < self.segments.len()
            invariant
                0 <= i <= self.segments@.len(),
                out@.len() == live_segments(self.segments@.take(i as int)).len(),
                forall|k: int|
                    0 <= k < out@.len() ==> *out@[k] == live_segments(
                        self.segments@.take(i as int),
                    )[k],
            decreases self.segments@.len() - i,
        {
            assert(self.segments@.take(i + 1).drop_last() =~= self.segments@.take(i as int));
            match &self.segments[i].1 {
                SegmentState::Active(s) => out.push(s),
                SegmentState::Immutable(s) => out.push(s),
                SegmentState::Merging(_) => {},
            }
            i = i + 1;
        }
        assert(self.segments@.take(i as int) =~= self.segments@);
        out
    }

    /// All segments but those being merged, in entry order.
    pub fn all_segments(&self) -> (r: Vec<&VectorSegment>)
        ensures
            r@.len() == live_segments(self.entries()).len(),
            forall|k: int| 0 <= k < r@.len() ==> *r@[k] == live_segments(self.entries())[k],
    {
        self.visible_segments()
    }

    /// The segment new vectors go to.
    pub fn active_segment(&self) -> (r: Option<&VectorSegment>)
        ensures
            match r {
                Some(s) => self.active_segment_of() == Some(*s),
                None => self.active_segment_of() is None,
            },
    {
        let sid = match self.active_segment_id {
            Some(s) => s,
            None => return None,
        };
        match self.position(sid) {
            Some(i) => match &self.segments[i].1 {
                SegmentState::Active(s) => Some(s),
                _ => None,
            },
            None => None,
        }
    }

    /// The segment with ID `segment_id`, unless it is absent or being
    /// merged.
    pub fn get_segment(&self, segment_id: u64) -> (r: Option<&VectorSegment>)
        ensures
            match r {
                Some(s) => segment_with_id(self.entries(), segment_id) == Some(*s),
                None => segment_with_id(self.entries(), segment_id) is None,
            },
    {
        match self.position(segment_id) {
            Some(i) => match &self.segments[i].1 {
                SegmentState::Active(s) => Some(s),
                SegmentState::Immutable(s) => Some(s),
                SegmentState::Merging(_) => None,
            },
            None => None,
        }
    }

    /// The number of segments, those being merged included.
    pub fn segment_count(&self) -> (r: usize)
        ensures
            r == self.entries().len(),
    {
        self.segments.len()
    }

    /// The number of vectors over all segments but those being merged.
    pub fn total_vector_count(&self) -> (r: usize)
        requires
            total_count(self.entries()) <= usize::MAX,
        ensures
            r == total_count(self.entries()),
    {
        let mut total: usize = 0;
        let mut i: usize = 0;
        while i < self.segments.len()
            invariant
                0 <= i <= self.segments@.len(),
                total == total_count(self.segments@.take(i as int)),
                total_count(self.segments@) <= usize::MAX,
            decreases self.segments@.len() - i,
        {
            proof {
                lemma_total_prefix(self.segments@, i + 1);
                assert(self.segments@.take(i + 1).drop_last() =~= self.segments@.take(i as int));
            }
            let c = match &self.segments[i].1 {
                SegmentState::Active(s) => s.count,
                SegmentState::Immutable(s) => s.count,
                SegmentState::Merging(_) => 0,
            };
            total = total + c;
            i = i + 1;
        }
        assert(self.segments@.take(i as int) =~= self.segments@);
        total
    }
}

impl VectorMvcc {
    /// Applies the log records in order (see `replays`).
    pub fn replay(&mut self, entries: &[VectorWalEntry]) -> (r: Result<()>)
        requires
            old(self).wf(),
        ensures
            final(self).wf(),
            replays(*old(self), *final(self), entries_view(entries@), r),
    {
        let ghost es = entries_view(entries@);
        assert(es.skip(0) =~= es);
        let mut i: usize = 0;
        while i < entries.len()
            invariant
                self.wf(),
                i <= entries@.len(),
                es == entries_view(entries@),
                forall|b: VectorMvcc, q: Result<()>|
                    #[trigger] replays(*self, b, es.skip(i as int), q) ==> replays(*old(self), b, es, q),
            decreases entries@.len() - i,
        {
            let ghost cur = *self;
            let ghost e = es[i as int];
            assert(es.skip(i as int)[0] == e);
            assert(es.skip(i as int).drop_first() =~= es.skip(i + 1));
            let entry = &entries[i];
            assert(e == entry@);
            match (entry.operation, entry.vector_id, &entry.embedding) {
                (VectorWalOp::Insert, Some(v), Some(emb)) => {
                    let res = self.insert(v, emb.as_slice());
                    assert(insert_outcome(cur, *self, e.vector_id.unwrap(), e.embedding.unwrap(), res));
                    match res {
                        Err(x) => {
                            assert(replays(cur, *self, es.skip(i as int), Err::<(), Error>(x)));
                            return Err(x);
                        },
                        Ok(_) => {
                            assert forall|b: VectorMvcc, q: Result<()>|
                                #[trigger] replays(*self, b, es.skip(i + 1), q) implies replays(
                                *old(self),
                                b,
                                es,
                                q,
                            ) by {
                                assert(insert_outcome(cur, *self, v, emb@, res));
                                assert(replays(cur, b, es.skip(i as int), q));
                            }
                        },
                    }
                },
                (VectorWalOp::Delete, Some(v), _) => {
                    let res = self.delete(v);
                    assert(delete_outcome(cur, *self, e.vector_id.unwrap(), res));
                    match res {
                        Err(x) => {
                            assert(replays(cur, *self, es.skip(i as int), Err::<(), Error>(x)));
                            return Err(x);
                        },
                        Ok(_) => {
                            assert forall|b: VectorMvcc, q: Result<()>|
                                #[trigger] replays(*self, b, es.skip(i + 1), q) implies replays(
                                *old(self),
                                b,
                                es,
                                q,
                            ) by {
                                assert(delete_outcome(cur, *self, v, res));
                                assert(replays(cur, b, es.skip(i as int), q));
                            }
                        },
                    }
                },
                _ => {
                    assert forall|b: VectorMvcc, q: Result<()>|
                        #[trigger] replays(*self, b, es.skip(i + 1), q) implies replays(
                        *old(self),
                        b,
                        es,
                        q,
                    ) by {
                        assert(replays(cur, b, es.skip(i as int), q));
                    }
                },
            }
            i = i + 1;
        }
        assert(replays(*self, *self, es.skip(i as int), Ok::<(), Error>(())));
        Ok(())
    }
}

/// Replacing one entry changes the total by the difference of the two
/// entries' counts.
proof fn lemma_total_update(es: Seq<(u64, SegmentState)>, i: int, x: (u64, SegmentState))
    requires
        0 <= i < es.len(),
    ensures
        total_count(es.update(i, x)) + held_count(es[i].1) == total_count(es) + held_count(x.1),
    decreases es.len(),
{
    let u = es.update(i, x);
    if i == es.len() - 1 {
        assert(u.drop_last() =~= es.drop_last());
    } else {
        lemma_total_update(es.drop_last(), i, x);
        assert(u.drop_last() =~= es.drop_last().update(i, x));
    }
}

/// Deleting a vector twice: the second delete succeeds with `None` and
/// changes nothing, and the vector stays deleted.
pub proof fn lemma_delete_idempotent(
    a: VectorMvcc,
    b: VectorMvcc,
    c: VectorMvcc,
    vector_id: i64,
    r1: Result<Option<u64>>,
    r2: Result<Option<u64>>,
)
    requires
        delete_outcome(a, b, vector_id, r1),
        r1 is Ok,
        delete_outcome(b, c, vector_id, r2),
    ensures
        r2 == Ok::<Option<u64>, Error>(None),
        same_model(b, c),
        c.tombstones().contains(vector_id),
{
}

/// A vector just inserted can be deleted: the delete succeeds and the
/// vector is then deleted; unless it was deleted before, the tombstone is
/// placed in the segment the insert went to.
pub proof fn lemma_insert_then_delete(
    a: VectorMvcc,
    b: VectorMvcc,
    c: VectorMvcc,
    vector_id: i64,
    embedding: Seq<u32>,
    r1: Result<u64>,
    r2: Result<Option<u64>>,
)
    requires
        insert_outcome(a, b, vector_id, embedding, r1),
        r1 is Ok,
        delete_outcome(b, c, vector_id, r2),
    ensures
        r2 is Ok,
        c.tombstones().contains(vector_id),
        !a.tombstones().contains(vector_id) ==> r2 == Ok::<Option<u64>, Error>(Some(r1->Ok_0)),
{
}

/// Each successful insert adds one vector to the total.
pub proof fn lemma_insert_counts_one(
    a: VectorMvcc,
    b: VectorMvcc,
    vector_id: i64,
    embedding: Seq<u32>,
    r: Result<u64>,
)
    requires
        insert_outcome(a, b, vector_id, embedding, r),
        r is Ok,
    ensures
        total_count(b.entries()) == total_count(a.entries()) + 1,
{
    let i = a.active_position().unwrap();
    lemma_position_of(a.entries(), a.active_id().unwrap());
    lemma_total_update(a.entries(), i, b.entries()[i]);
}

/// Inserts and deletes never lift a tombstone or forget a vector's slot.
pub proof fn lemma_tombstones_kept(
    a: VectorMvcc,
    b: VectorMvcc,
    c: VectorMvcc,
    vector_id: i64,
    embedding: Seq<u32>,
    deleted_id: i64,
    r1: Result<u64>,
    r2: Result<Option<u64>>,
)
    requires
        insert_outcome(a, b, vector_id, embedding, r1),
        delete_outcome(b, c, deleted_id, r2),
    ensures
        a.tombstones().subset_of(b.tombstones()),
        b.tombstones().subset_of(c.tombstones()),
        a.locations().dom().subset_of(b.locations().dom()),
        b.locations().dom().subset_of(c.locations().dom()),
{
}


/// Replacing an entry's state, keeping its ID, keeps every position.
proof fn lemma_position_update(es: Seq<(u64, SegmentState)>, i: int, st: SegmentState, id: u64)
    requires
        0 <= i < es.len(),
    ensures
        position_of(es.update(i, (es[i].0, st)), id) == position_of(es, id),
{
    let fs = es.update(i, (es[i].0, st));
    lemma_position_of(es, id);
    lemma_position_of(fs, id);
    assert(forall|j: int| 0 <= j < es.len() ==> #[trigger] fs[j].0 == es[j].0);
    match position_of(es, id) {
        Some(k) => {
            match position_of(fs, id) {
                Some(l) => {
                    if l < k {
                        assert(es[l].0 == id);
                    } else if l > k {
                        assert(fs[k].0 == id);
                    }
                },
                None => {
                    assert(fs[k].0 == id);
                },
            }
        },
        None => {
            match position_of(fs, id) {
                Some(l) => {
                    assert(es[l].0 == id);
                },
                None => {},
            }
        },
    }
}

/// Replaying insert records on storage whose active segment accepts
/// vectors of their dimension and has room for all of them succeeds, adds
/// one vector per record, keeps every tracked vector, and tracks each
/// inserted ID.
pub proof fn lemma_replay_inserts(a: VectorMvcc, b: VectorMvcc, es: Seq<VectorWalEntryView>, r: Result<()>)
    requires
        replays(a, b, es, r),
        a.active_segment_of() is Some,
        !a.active_segment_of().unwrap().is_immutable,
        a.active_segment_of().unwrap().count + es.len() <= a.active_segment_of().unwrap().capacity,
        forall|k: int|
            0 <= k < es.len() ==> (#[trigger] es[k]).operation == VectorWalOp::Insert
                && es[k].vector_id is Some && es[k].embedding is Some
                && es[k].embedding.unwrap().len() == a.active_segment_of().unwrap().dimensions,
    ensures
        r is Ok,
        total_count(b.entries()) == total_count(a.entries()) + es.len(),
        a.locations().dom().subset_of(b.locations().dom()),
        forall|k: int| 0 <= k < es.len() ==> b.locations().contains_key(#[trigger] es[k].vector_id.unwrap()),
    decreases es.len(),
{
    if es.len() == 0 {
        assert(a.locations().dom() =~= b.locations().dom());
    } else {
        let e = es[0];
        let v = e.vector_id.unwrap();
        let emb = e.embedding.unwrap();
        let rest = es.drop_first();
        let (m, s2) = choose|m: VectorMvcc, s2: Result<u64>|
            #[trigger] insert_outcome(a, m, v, emb, s2) && match s2 {
                Err(x) => r == Err::<(), Error>(x) && same_model(m, b),
                Ok(_) => replays(m, b, rest, r),
            };
        let i = a.active_position().unwrap();
        let sid = a.entries()[i].0;
        let seg = a.active_segment_of().unwrap();
        assert(push_error(seg, emb.len()) is None);
        assert(s2 is Ok);
        lemma_position_of(a.entries(), a.active_id().unwrap());
        let t = m.entries()[i].1->Active_0;
        assert(m.entries() =~= a.entries().update(i, (a.entries()[i].0, m.entries()[i].1)));
        lemma_position_update(a.entries(), i, m.entries()[i].1, sid);
        assert(m.active_position() == Some(i));
        assert(m.active_segment_of() == Some(t));
        assert forall|k: int| 0 <= k < rest.len() implies (#[trigger] rest[k]).operation
            == VectorWalOp::Insert && rest[k].vector_id is Some && rest[k].embedding is Some
            && rest[k].embedding.unwrap().len() == m.active_segment_of().unwrap().dimensions by {
            assert(rest[k] == es[k + 1]);
        }
        lemma_replay_inserts(m, b, rest, r);
        lemma_insert_counts_one(a, m, v, emb, s2);
        assert forall|k: int| 0 <= k < es.len() implies b.locations().contains_key(
            #[trigger] es[k].vector_id.unwrap(),
        ) by {
            if k > 0 {
                assert(es[k] == rest[k - 1]);
            } else {
                assert(m.locations().contains_key(v));
            }
        }
    }
}

} // verus!
