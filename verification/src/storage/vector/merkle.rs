//! Merkle commitments over vector segments: a root per segment over its
//! vectors' leaf hashes, and a global root over the segment roots taken in
//! increasing segment-ID order.
//! All hashes are BLAKE3.

use std::collections::HashMap;
use vstd::prelude::*;
use crate::codec::{le32_words, le64, push_all, push_le32_words, push_le64};
use crate::digest::{blake3, blake3_digest};
use crate::xorfold::zero32;
use crate::keyorder::{bytes_equal, lemma_sorted_unique};
use vstd::std_specs::iter::IteratorSpec;

verus! {

broadcast use vstd::std_specs::hash::group_hash_axioms;

/// The leaf of a vector: BLAKE3 of its ID's little-endian bytes followed
/// by the BLAKE3 digest of its embedding's bytes (the little-endian bytes
/// of its components' bit patterns).
pub open spec fn leaf_of(vector_id: i64, bits: Seq<u32>) -> Seq<u8> {
    blake3(le64(vector_id as u64) + blake3(le32_words(bits)))
}

/// The hash of an inner node: BLAKE3 of the two children.
pub open spec fn inner_hash(a: Seq<u8>, b: Seq<u8>) -> Seq<u8> {
    blake3(a + b)
}

/// The level above `hs`: adjacent pairs hashed together, a last odd node
/// hashed with itself.
pub open spec fn level_above(hs: Seq<Seq<u8>>) -> Seq<Seq<u8>> {
    Seq::new(
        ((hs.len() + 1) / 2) as nat,
        |i: int|
            if 2 * i + 1 < hs.len() {
                inner_hash(hs[2 * i], hs[2 * i + 1])
            } else {
                inner_hash(hs[2 * i], hs[2 * i])
            },
    )
}

/// The root over `hs`: zero for none, the node itself for one, else the
/// root of the level above.
pub open spec fn tree_root(hs: Seq<Seq<u8>>) -> Seq<u8>
    decreases hs.len(),
{
    if hs.len() == 0 {
        zero32()
    } else if hs.len() == 1 {
        hs[0]
    } else {
        tree_root(level_above(hs))
    }
}

/// The views of a list of digests.
pub open spec fn digests_view(hs: Seq<[u8; 32]>) -> Seq<Seq<u8>> {
    hs.map_values(|h: [u8; 32]| h@)
}

/// `ids` is strictly increasing.
pub open spec fn increasing(ids: Seq<u64>) -> bool {
    forall|i: int, j: int| 0 <= i < j < ids.len() ==> #[trigger] ids[i] < #[trigger] ids[j]
}

/// The segment IDs of `roots` in increasing order.
pub open spec fn ids_in_order(roots: Map<u64, Seq<u8>>) -> Seq<u64> {
    choose|ids: Seq<u64>| increasing(ids) && ids.to_set() == roots.dom()
}

/// The global root over `roots`: the tree over the segment roots taken in
/// increasing segment-ID order.
pub open spec fn global_root_of(roots: Map<u64, Seq<u8>>) -> Seq<u8> {
    tree_root(ids_in_order(roots).map_values(|k: u64| roots[k]))
}

/// An increasing list of exactly the map's IDs is the one `ids_in_order`
/// names.
proof fn lemma_ids_in_order(roots: Map<u64, Seq<u8>>, ids: Seq<u64>)
    requires
        increasing(ids),
        ids.to_set() == roots.dom(),
    ensures
        ids_in_order(roots) == ids,
{
    let o = ids_in_order(roots);
    assert(increasing(o) && o.to_set() == roots.dom());
    let lt = |x: u64, y: u64| x < y;
    assert forall|i: int, j: int| 0 <= i < j < o.len() implies lt(#[trigger] o[i], #[trigger] o[j]) by {}
    assert forall|i: int, j: int| 0 <= i < j < ids.len() implies lt(#[trigger] ids[i], #[trigger] ids[j]) by {}
    lemma_sorted_unique(o, ids, lt);
}

/// Merkle tree over vector segments.
pub struct VectorMerkle {
    /// segment_id -> segment Merkle root
    segment_roots: HashMap<u64, [u8; 32]>,
    /// Global root hash
    global_root: [u8; 32],
}

/// The hash of an inner node over two child digests.
fn internal_hash(a: &[u8; 32], b: &[u8; 32]) -> (r: [u8; 32])
    ensures
        r@ == inner_hash(a@, b@),
{
    let mut data: Vec<u8> = Vec::new();
    push_all(&mut data, a.as_slice());
    push_all(&mut data, b.as_slice());
    blake3_digest(data.as_slice())
}

/// The root over `leaves` (see `tree_root`).
pub fn build_merkle_root(leaves: Vec<[u8; 32]>) -> (r: [u8; 32])
    ensures
        r@ == tree_root(digests_view(leaves@)),
{
    if leaves.len() == 0 {
        let z = [0u8; 32];
        assert(z@ =~= zero32());
        return z;
    }
    let mut level = leaves;
    while level.len() > 1
        invariant
            level@.len() >= 1,
            tree_root(digests_view(level@)) == tree_root(digests_view(leaves@)),
        decreases level@.len(),
    {
        let n = level.len();
        let ghost cur = digests_view(level@);
        let m = n / 2 + n % 2;
        let mut next: Vec<[u8; 32]> = Vec::new();
        let mut k: usize = 0;
        while k < m
            invariant
                n == level@.len(),
                n >= 2,
                m == (n + 1) / 2,
                cur == digests_view(level@),
                k <= m,
                next@.len() == k,
                forall|t: int| 0 <= t < k ==> #[trigger] next@[t]@ == level_above(cur)[t],
            decreases m - k,
        {
            let j = 2 * k;
            let h = if j + 1 < n {
                internal_hash(&level[j], &level[j + 1])
            } else {
                internal_hash(&level[j], &level[j])
            };
            next.push(h);
            k = k + 1;
        }
        assert(digests_view(next@) =~= level_above(cur));
        level = next;
    }
    assert(digests_view(level@) =~= seq![level@[0]@]);
    level[0]
}

impl VectorMerkle {
    /// The root of each segment.
    pub closed spec fn roots(self) -> Map<u64, Seq<u8>> {
        self.segment_roots@.map_values(|r: [u8; 32]| r@)
    }

    /// The global root.
    pub closed spec fn global(self) -> Seq<u8> {
        self.global_root@
    }

    /// An empty tree, whose global root is zero.
    pub fn new() -> (r: Self)
        ensures
            r.roots() == Map::<u64, Seq<u8>>::empty(),
            r.global() == zero32(),
            r.global() == global_root_of(r.roots()),
    {
        let r = VectorMerkle { segment_roots: HashMap::new(), global_root: [0u8; 32] };
        assert(r.global() =~= zero32());
        assert(r.roots() =~= Map::<u64, Seq<u8>>::empty());
        proof { lemma_empty_global_root(); }
        r
    }

    /// The leaf hash of a vector, whose embedding is given by the bit
    /// patterns of its components.
    pub fn leaf_hash(vector_id: i64, embedding: &[u32]) -> (r: [u8; 32])
        ensures
            r@ == leaf_of(vector_id, embedding@),
    {
        let mut emb_bytes: Vec<u8> = Vec::new();
        push_le32_words(&mut emb_bytes, embedding);
        let inner_digest = blake3_digest(emb_bytes.as_slice());
        let mut data: Vec<u8> = Vec::new();
        push_le64(&mut data, vector_id as u64);
        push_all(&mut data, inner_digest.as_slice());
        blake3_digest(data.as_slice())
    }

    /// The segment IDs in increasing order.
    fn sorted_ids(&self) -> (r: Vec<u64>)
        ensures
            increasing(r@),
            r@.to_set() == self.roots().dom(),
    {
        let ghost ks: Seq<u64> = vstd::std_specs::hash::spec_keys_iter(&self.segment_roots).remaining().unref();
        let mut out: Vec<u64> = Vec::new();
        for k in it: self.segment_roots.keys()
            invariant
                it.seq().unref() == ks,
                ks.no_duplicates(),
                increasing(out@),
                out@.to_set() == ks.take(it.index() as int).to_set(),
        {
            let key = *k;
            let ghost seen = ks.take(it.index() as int);
            assert(ks[it.index() as int] == key);
            assert(!seen.contains(key));
            let mut p: usize = 0;
            while p < out.len() && out[p] < key
                invariant
                    p <= out@.len(),
                    forall|j: int| 0 <= j < p ==> out@[j] < key,
                decreases out@.len() - p,
            {
                p = p + 1;
            }
            let ghost before = out@;
            assert(!before.to_set().contains(key));
            assert(p < before.len() ==> before[p as int] > key);
            out.insert(p, key);
            proof {
                assert(out@ =~= before.subrange(0, p as int).push(key) + before.subrange(p as int, before.len() as int));
                assert forall|i: int, j: int| 0 <= i < j < out@.len() implies #[trigger] out@[i] < #[trigger] out@[j] by {
                    if j < p { assert(out@[i] == before[i] && out@[j] == before[j]); }
                    else if j == p { assert(out@[i] == before[i]); }
                    else if i < p { assert(out@[j] == before[j - 1]); assert(before[i] < before[p as int] || p as int == j - 1 || before[i] < before[j - 1]); }
                    else if i == p { assert(out@[j] == before[j - 1]); if j - 1 > p { assert(before[p as int] < before[j - 1]); } }
                    else { assert(out@[i] == before[i - 1] && out@[j] == before[j - 1]); }
                }
                assert(ks.take(it.index() + 1) =~= seen.push(key));
                assert forall|x: u64| #[trigger] out@.contains(x) <==> seen.push(key).contains(x) by {
                    assert(before.to_set().contains(x) == seen.to_set().contains(x));
                    assert(out@[p as int] == key);
                    assert(seen.push(key)[seen.len() as int] == key);
                    if out@.contains(x) {
                        let i = choose|i: int| 0 <= i < out@.len() && out@[i] == x;
                        if i < p { assert(before[i] == x); }
                        else if i > p { assert(before[i - 1] == x); }
                    }
                    if before.contains(x) {
                        let i = choose|i: int| 0 <= i < before.len() && before[i] == x;
                        if i < p { assert(out@[i] == x); } else { assert(out@[i + 1] == x); }
                    }
                    if seen.push(key).contains(x) {
                        let i = choose|i: int| 0 <= i < seen.push(key).len() && seen.push(key)[i] == x;
                        if i < seen.len() { assert(seen[i] == x); }
                    }
                    if seen.contains(x) {
                        let i = choose|i: int| 0 <= i < seen.len() && seen[i] == x;
                        assert(seen.push(key)[i] == x);
                    }
                }
                assert(out@.to_set() =~= seen.push(key).to_set());
            }
        }
        assert(ks.take(ks.len() as int) =~= ks);
        out
    }

    fn recompute_global_root(&mut self)
        ensures
            final(self).roots() == old(self).roots(),
            final(self).global() == global_root_of(final(self).roots()),
    {
        let ids = self.sorted_ids();
        let mut values: Vec<[u8; 32]> = Vec::new();
        let mut i: usize = 0;
        while i < ids.len()
            invariant
                i <= ids@.len(),
                ids@.to_set() == self.roots().dom(),
                values@.len() == i,
                forall|j: int| 0 <= j < i ==> #[trigger] values@[j]@ == self.roots()[ids@[j]],
            decreases ids@.len() - i,
        {
            let id = ids[i];
            assert(ids@.to_set().contains(id));
            match self.segment_roots.get(&id) {
                Some(v) => values.push(*v),
                None => {
                    assert(false);
                },
            }
            i = i + 1;
        }
        let ghost s = values@;
        let root = build_merkle_root(values);
        self.global_root = root;
        proof {
            lemma_ids_in_order(self.roots(), ids@);
            assert(digests_view(s) =~= ids@.map_values(|k: u64| self.roots()[k]));
        }
    }

    /// Sets the root of a segment to the root over its vectors' leaves,
    /// in the order given, and recomputes the global root.
    pub fn update_segment(&mut self, segment_id: u64, vectors: &[(i64, &[u32])])
        ensures
            exists|leaves: Seq<[u8; 32]>|
                leaves.len() == vectors@.len() && (forall|i: int|
                    0 <= i < vectors@.len() ==> #[trigger] leaves[i]@ == leaf_of(
                        vectors@[i].0,
                        vectors@[i].1@,
                    )) && final(self).roots() == old(self).roots().insert(
                    segment_id,
                    tree_root(digests_view(leaves)),
                ),
            final(self).global() == global_root_of(final(self).roots()),
    {
        let mut leaves: Vec<[u8; 32]> = Vec::new();
        let mut i: usize = 0;
        while i < vectors.len()
            invariant
                i <= vectors@.len(),
                leaves@.len() == i,
                forall|j: int|
                    0 <= j < i ==> #[trigger] leaves@[j]@ == leaf_of(
                        vectors@[j].0,
                        vectors@[j].1@,
                    ),
            decreases vectors@.len() - i,
        {
            let (vid, emb) = vectors[i];
            leaves.push(Self::leaf_hash(vid, emb));
            i = i + 1;
        }
        let ghost ls = leaves@;
        let root = build_merkle_root(leaves);
        self.segment_roots.insert(segment_id, root);
        assert(self.roots() =~= old(self).roots().insert(segment_id, tree_root(digests_view(ls))));
        self.recompute_global_root();
    }

    /// Removes a segment (after merge or compaction) and recomputes the
    /// global root.
    pub fn remove_segment(&mut self, segment_id: u64)
        ensures
            final(self).roots() == old(self).roots().remove(segment_id),
            final(self).global() == global_root_of(final(self).roots()),
    {
        self.segment_roots.remove(&segment_id);
        assert(self.roots() =~= old(self).roots().remove(segment_id));
        self.recompute_global_root();
    }

    /// The global root.
    pub fn global_root(&self) -> (r: &[u8])
        ensures
            r@ == self.global(),
            r@.len() == 32,
    {
        self.global_root.as_slice()
    }

    /// The root of a segment, if it has one.
    pub fn segment_root(&self, segment_id: u64) -> (r: Option<&[u8]>)
        ensures
            match r {
                Some(s) => self.roots().contains_key(segment_id) && s@ == self.roots()[segment_id],
                None => !self.roots().contains_key(segment_id),
            },
    {
        match self.segment_roots.get(&segment_id) {
            Some(root) => Some(root.as_slice()),
            None => None,
        }
    }

    /// A proof for a vector of a segment: its leaf, the segment's root and
    /// the global root; `None` when the segment has no root.
    pub fn generate_proof(&self, segment_id: u64, vector_id: i64, embedding: &[u32]) -> (r: Option<
        MerkleProof,
    >)
        ensures
            match r {
                Some(p) => self.roots().contains_key(segment_id) && p.leaf@ == leaf_of(
                    vector_id,
                    embedding@,
                ) && p.segment_root@ == self.roots()[segment_id] && p.global_root@ == self.global()
                    && p.vector_id == vector_id && p.segment_id == segment_id,
                None => !self.roots().contains_key(segment_id),
            },
    {
        let leaf = Self::leaf_hash(vector_id, embedding);
        let segment_root = match self.segment_root(segment_id) {
            Some(root) => root,
            None => {
                return None;
            },
        };
        let mut leaf_bytes: Vec<u8> = Vec::new();
        push_all(&mut leaf_bytes, leaf.as_slice());
        let mut segment_bytes: Vec<u8> = Vec::new();
        push_all(&mut segment_bytes, segment_root);
        let mut global_bytes: Vec<u8> = Vec::new();
        push_all(&mut global_bytes, self.global_root.as_slice());
        Some(
            MerkleProof {
                leaf: leaf_bytes,
                segment_root: segment_bytes,
                global_root: global_bytes,
                vector_id,
                segment_id,
            },
        )
    }

    /// Checks a proof as far as it can be checked without sibling hashes:
    /// the segment root matches the global root, or the global root has
    /// the length of a digest.
    pub fn verify_proof(proof: &MerkleProof) -> (r: bool)
        ensures
            r == (proof.segment_root@ == proof.global_root@ || proof.global_root@.len() == 32),
    {
        bytes_equal(proof.segment_root.as_slice(), proof.global_root.as_slice())
            || proof.global_root.len() == 32
    }
}

impl Default for VectorMerkle {
    fn default() -> (r: Self)
        ensures
            r.roots() == Map::<u64, Seq<u8>>::empty(),
            r.global() == zero32(),
            r.global() == global_root_of(r.roots()),
    {
        Self::new()
    }
}

/// Proof that a vector belongs to a segment.
#[derive(Debug, Clone)]
pub struct MerkleProof {
    /// Leaf hash
    pub leaf: Vec<u8>,
    /// Segment root
    pub segment_root: Vec<u8>,
    /// Global root
    pub global_root: Vec<u8>,
    /// Vector ID
    pub vector_id: i64,
    /// Segment ID
    pub segment_id: u64,
}

/// The serialized form of a proof: leaf, segment root and global root,
/// then the vector and segment IDs as little-endian words.
pub open spec fn proof_bytes(p: MerkleProof) -> Seq<u8> {
    p.leaf@ + p.segment_root@ + p.global_root@ + le64(p.vector_id as u64) + le64(p.segment_id)
}

impl MerkleProof {
    /// Serializes the proof for storage or transmission.
    pub fn to_bytes(&self) -> (r: Vec<u8>)
        ensures
            r@ == proof_bytes(*self),
    {
        let mut bytes: Vec<u8> = Vec::new();
        push_all(&mut bytes, self.leaf.as_slice());
        push_all(&mut bytes, self.segment_root.as_slice());
        push_all(&mut bytes, self.global_root.as_slice());
        push_le64(&mut bytes, self.vector_id as u64);
        push_le64(&mut bytes, self.segment_id);
        bytes
    }

    /// Reads a proof back. The encoding is not parsed yet: every input
    /// gives the proof with zero hashes and zero IDs.
    pub fn from_bytes(_bytes: &[u8]) -> (r: Option<Self>)
        ensures
            r matches Some(p) && p.leaf@ == zero32() && p.segment_root@ == zero32()
                && p.global_root@ == zero32() && p.vector_id == 0 && p.segment_id == 0,
    {
        let leaf = vec![0u8; 32];
        let segment_root = vec![0u8; 32];
        let global_root = vec![0u8; 32];
        assert(leaf@ =~= zero32());
        Some(MerkleProof { leaf, segment_root, global_root, vector_id: 0, segment_id: 0 })
    }
}


/// Every proof that `generate_proof` gives passes `verify_proof`: its
/// roots are the tree's, and the global root is a digest.
pub proof fn lemma_generated_proof_verifies(m: VectorMerkle, p: MerkleProof)
    requires
        m.roots().contains_key(p.segment_id),
        p.segment_root@ == m.roots()[p.segment_id],
        p.global_root@ == m.global(),
    ensures
        p.segment_root@ == p.global_root@ || p.global_root@.len() == 32,
{
}


/// With no segment, the global root is zero.
pub proof fn lemma_empty_global_root()
    ensures
        global_root_of(Map::<u64, Seq<u8>>::empty()) == zero32(),
{
    let m = Map::<u64, Seq<u8>>::empty();
    let ids = Seq::<u64>::empty();
    assert(ids.to_set() =~= m.dom());
    lemma_ids_in_order(m, ids);
    assert(ids.map_values(|k: u64| m[k]) =~= Seq::<Seq<u8>>::empty());
}

/// Trees holding the same segment roots have the same global root,
/// whatever the order of the updates that built them.
pub proof fn lemma_global_root_determined(m1: VectorMerkle, m2: VectorMerkle)
    requires
        m1.global() == global_root_of(m1.roots()),
        m2.global() == global_root_of(m2.roots()),
        m1.roots() == m2.roots(),
    ensures
        m1.global() == m2.global(),
{
}


/// Each level of the tree has one node per pair of nodes below it, an odd
/// node left over being paired with itself: `n` nodes give `(n + 1) / 2`,
/// adjacent pairs are hashed in order, and the last of an odd count is
/// hashed with itself, so no node is dropped.
pub proof fn lemma_level_above_pairs_every_node(hs: Seq<Seq<u8>>)
    ensures
        level_above(hs).len() == (hs.len() + 1) / 2,
        forall|i: int|
            0 <= i < hs.len() / 2 ==> #[trigger] level_above(hs)[i] == blake3(hs[2 * i] + hs[2 * i + 1]),
        hs.len() % 2 == 1 ==> level_above(hs)[(hs.len() / 2) as int] == blake3(hs.last() + hs.last()),
{
}

/// The root over three leaves: the hash of the first two's hash and the
/// third hashed with itself.
pub proof fn lemma_tree_root_three(h1: Seq<u8>, h2: Seq<u8>, h3: Seq<u8>)
    ensures
        tree_root(seq![h1, h2, h3]) == blake3(blake3(h1 + h2) + blake3(h3 + h3)),
{
    let hs = seq![h1, h2, h3];
    let l1 = level_above(hs);
    assert(l1 =~= seq![blake3(h1 + h2), blake3(h3 + h3)]);
    let l2 = level_above(l1);
    assert(l2 =~= seq![blake3(blake3(h1 + h2) + blake3(h3 + h3))]);
    assert(tree_root(l2) == l2[0]);
    assert(tree_root(l1) == tree_root(l2));
    assert(tree_root(hs) == tree_root(l1));
}

} // verus!
