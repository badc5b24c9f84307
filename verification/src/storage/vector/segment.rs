//! In-memory vector segments: fixed-capacity storage of embeddings with
//! tombstones. Components are 32-bit floats, held as their bit patterns.

use vstd::prelude::*;
use vstd::slice::{slice_subrange, slice_to_vec};
use crate::error::{Error, Result};

verus! {

/// `s` with `e` written over it from position `off` on.
pub open spec fn overwrite<T>(s: Seq<T>, off: int, e: Seq<T>) -> Seq<T> {
    s.subrange(0, off) + e + s.subrange(off + e.len(), s.len() as int)
}

/// The first position of `x` in `s`, if it occurs.
#[verifier::opaque]
pub open spec fn first_index_of<T>(s: Seq<T>, x: T) -> Option<int> {
    if exists|i: int| 0 <= i < s.len() && s[i] == x {
        Some(choose|i: int| 0 <= i < s.len() && s[i] == x && forall|j: int| 0 <= j < i ==> s[j] != x)
    } else {
        None
    }
}

/// The number of `false` entries of `s`.
pub open spec fn count_live(s: Seq<bool>) -> nat
    decreases s.len(),
{
    if s.len() == 0 {
        0
    } else {
        count_live(s.drop_last()) + if s.last() {
            0nat
        } else {
            1nat
        }
    }
}

/// The vectors listed for commitments among the first `n`: each with its
/// ID and embedding, unless the first vector with the same ID is deleted.
pub open spec fn listed_vectors(
    ids: Seq<i64>,
    emb: Seq<u32>,
    del: Seq<bool>,
    dims: int,
    n: int,
) -> Seq<(i64, Seq<u32>)>
    decreases n,
{
    if n <= 0 {
        Seq::empty()
    } else {
        let prev = listed_vectors(ids, emb, del, dims, n - 1);
        let i = n - 1;
        let first = match first_index_of(ids, ids[i]) {
            Some(k) => k,
            None => 0,
        };
        if !del[first] {
            prev.push((ids[i], embedding_at(emb, dims, i)))
        } else {
            prev
        }
    }
}

/// The IDs and embeddings of a list of vectors.
pub open spec fn listed_view(v: Seq<(i64, Vec<u32>)>) -> Seq<(i64, Seq<u32>)> {
    v.map_values(|p: (i64, Vec<u32>)| (p.0, p.1@))
}

/// A segment of vectors stored component-major per vector.
pub struct VectorSegment {
    /// Unique segment identifier
    pub id: u64,
    /// Vector IDs - one per vector
    pub vector_ids: Vec<i64>,
    /// Embeddings, `dimensions` components per vector, as bit patterns
    pub embeddings: Vec<u32>,
    /// Deleted flags (tombstones)
    pub deleted: Vec<bool>,
    /// Vector dimension
    pub dimensions: usize,
    /// Maximum capacity
    pub capacity: usize,
    /// Current count
    pub count: usize,
    /// Creating transaction ID
    pub created_txn: u64,
    /// Whether segment is immutable (no more inserts)
    pub is_immutable: bool,
}

/// The embedding of vector `idx`.
pub open spec fn embedding_at(emb: Seq<u32>, dims: int, idx: int) -> Seq<u32> {
    emb.subrange(idx * dims, idx * dims + dims)
}

proof fn lemma_slot_in_range(idx: int, dims: int, cap: int)
    requires
        0 <= idx < cap,
        0 <= dims,
    ensures
        0 <= idx * dims,
        idx * dims + dims <= dims * cap,
{
    assert(idx * dims + dims <= dims * cap) by (nonlinear_arith)
        requires
            0 <= idx < cap,
            0 <= dims,
    ;
    assert(0 <= idx * dims) by (nonlinear_arith)
        requires
            0 <= idx,
            0 <= dims,
    ;
}

/// The error that adding a vector with `len` components to `s` gives:
/// immutable, then full, then a wrong number of components; none if it
/// fits.
pub open spec fn push_error(s: VectorSegment, len: nat) -> Option<Error> {
    if s.is_immutable {
        Some(Error::SegmentImmutable(s.id))
    } else if s.count >= s.capacity {
        Some(Error::SegmentFull(s.id))
    } else if len != s.dimensions {
        Some(Error::InvalidVectorDimension { expected: s.dimensions, got: len as usize })
    } else {
        None
    }
}

/// `t` is `s` with vector `vector_id` appended in the next slot.
pub open spec fn pushed(s: VectorSegment, t: VectorSegment, vector_id: i64, embedding: Seq<u32>) -> bool {
    &&& t.vector_ids@ == s.vector_ids@.push(vector_id)
    &&& t.deleted@ == s.deleted@.push(false)
    &&& t.count == s.count + 1
    &&& t.embeddings@ == overwrite(s.embeddings@, s.count * s.dimensions, embedding)
    &&& t.id == s.id
    &&& t.dimensions == s.dimensions
    &&& t.capacity == s.capacity
    &&& t.created_txn == s.created_txn
    &&& t.is_immutable == s.is_immutable
}

impl VectorSegment {
    /// The lengths of the parts agree with the count and the capacity.
    pub open spec fn wf(self) -> bool {
        &&& self.vector_ids@.len() == self.count
        &&& self.deleted@.len() == self.count
        &&& self.count <= self.capacity
        &&& self.embeddings@.len() == self.dimensions * self.capacity
    }

    /// An empty segment with the given ID (used in recovery); all
    /// component slots hold zero.
    pub fn with_id(id: u64, dimensions: usize, capacity: usize, created_txn: u64) -> (r: Self)
        requires
            dimensions * capacity <= usize::MAX,
        ensures
            r.wf(),
            r.id == id,
            r.count == 0,
            r.dimensions == dimensions,
            r.capacity == capacity,
            r.created_txn == created_txn,
            !r.is_immutable,
            r.embeddings@ == Seq::new((dimensions * capacity) as nat, |i: int| 0u32),
    {
        let embeddings = vec![0u32; dimensions * capacity];
        assert(embeddings@ =~= Seq::new((dimensions * capacity) as nat, |i: int| 0u32));
        VectorSegment {
            id,
            vector_ids: Vec::new(),
            embeddings,
            deleted: Vec::new(),
            dimensions,
            capacity,
            count: 0,
            created_txn,
            is_immutable: false,
        }
    }

    /// Whether the segment holds as many vectors as it can.
    pub fn is_full(&self) -> (r: bool)
        ensures
            r == (self.count >= self.capacity),
    {
        self.count >= self.capacity
    }

    /// Whether the segment accepts another vector.
    pub fn can_insert(&self) -> (r: bool)
        ensures
            r == (!self.is_immutable && self.count < self.capacity),
    {
        !self.is_immutable && !self.is_full()
    }

    /// Adds a vector and returns its index. Fails, changing nothing, when
    /// the segment is immutable, full, or the embedding has the wrong
    /// number of components (checked in that order).
    pub fn push(&mut self, vector_id: i64, embedding: &[u32]) -> (r: Result<usize>)
        requires
            old(self).wf(),
        ensures
            final(self).wf(),
            push_error(*old(self), embedding@.len()) matches Some(e) ==> r == Err::<usize, Error>(e)
                && *final(self) == *old(self),
            push_error(*old(self), embedding@.len()) is None ==> r == Ok::<usize, Error>(
                old(self).count,
            ) && pushed(*old(self), *final(self), vector_id, embedding@),
    {
        if self.is_immutable {
            return Err(Error::SegmentImmutable(self.id));
        }
        if self.count >= self.capacity {
            return Err(Error::SegmentFull(self.id));
        }
        if embedding.len() != self.dimensions {
            return Err(Error::InvalidVectorDimension { expected: self.dimensions, got: embedding.len() });
        }
        let idx = self.count;
        let dims = self.dimensions;
        let el = self.embeddings.len();
        proof {
            lemma_slot_in_range(idx as int, dims as int, self.capacity as int);
        }
        let offset = idx * dims;
        self.vector_ids.push(vector_id);
        let ghost before = self.embeddings@;
        let ghost ids = self.vector_ids;
        let mut j: usize = 0;
        while j < dims
            invariant
                self.count == idx,
                idx < self.capacity,
                self.dimensions == dims,
                self.vector_ids == ids,
                ids@ == old(self).vector_ids@.push(vector_id),
                self.deleted == old(self).deleted,
                self.id == old(self).id,
                self.capacity == old(self).capacity,
                self.created_txn == old(self).created_txn,
                self.is_immutable == old(self).is_immutable,
                old(self).wf(),
                idx == old(self).count,
                dims == old(self).dimensions,
                dims == embedding@.len(),
                offset + dims <= before.len(),
                el == before.len(),
                self.embeddings@.len() == before.len(),
                j <= dims,
                self.embeddings@ == overwrite(before, offset as int, embedding@.subrange(0, j as int)),
            decreases dims - j,
        {
            self.embeddings.set(offset + j, embedding[j]);
            assert(self.embeddings@ =~= overwrite(before, offset as int, embedding@.subrange(0, j + 1)));
            j = j + 1;
        }
        assert(embedding@.subrange(0, dims as int) =~= embedding@);
        self.deleted.push(false);
        self.count = self.count + 1;
        Ok(idx)
    }

    /// The embedding of vector `idx`, if the segment holds one there.
    pub fn get_embedding(&self, idx: usize) -> (r: Option<&[u32]>)
        requires
            self.wf(),
        ensures
            if idx >= self.count {
                r is None
            } else {
                r matches Some(e) && e@ == embedding_at(self.embeddings@, self.dimensions as int, idx as int)
            },
    {
        if idx >= self.count {
            return None;
        }
        let el = self.embeddings.len();
        proof {
            lemma_slot_in_range(idx as int, self.dimensions as int, self.capacity as int);
        }
        let offset = idx * self.dimensions;
        Some(slice_subrange(self.embeddings.as_slice(), offset, offset + self.dimensions))
    }

    /// Marks vector `idx` deleted; fails with `IndexOutOfBounds` when the
    /// segment holds no vector there.
    pub fn delete(&mut self, idx: usize) -> (r: Result<()>)
        requires
            old(self).wf(),
        ensures
            final(self).wf(),
            idx >= old(self).count ==> r == Err::<(), Error>(
                Error::IndexOutOfBounds(idx, old(self).count),
            ) && *final(self) == *old(self),
            idx < old(self).count ==> r is Ok && final(self).deleted@ == old(self).deleted@.update(
                idx as int,
                true,
            ) && final(self).vector_ids == old(self).vector_ids && final(self).embeddings
                == old(self).embeddings && final(self).count == old(self).count && final(self).id
                == old(self).id && final(self).dimensions == old(self).dimensions
                && final(self).capacity == old(self).capacity && final(self).created_txn
                == old(self).created_txn && final(self).is_immutable == old(self).is_immutable,
    {
        if idx >= self.count {
            return Err(Error::IndexOutOfBounds(idx, self.count));
        }
        self.deleted.set(idx, true);
        Ok(())
    }

    /// Whether vector `idx` is deleted (false when there is none).
    pub fn is_deleted(&self, idx: usize) -> (r: bool)
        ensures
            r == (idx < self.deleted@.len() && self.deleted@[idx as int]),
    {
        idx < self.deleted.len() && self.deleted[idx]
    }

    /// The ID of vector `idx`, if any.
    pub fn get_vector_id(&self, idx: usize) -> (r: Option<i64>)
        ensures
            r == (if idx < self.vector_ids@.len() {
                Some(self.vector_ids@[idx as int])
            } else {
                None
            }),
    {
        if idx < self.vector_ids.len() {
            Some(self.vector_ids[idx])
        } else {
            None
        }
    }

    /// The index of the first vector with the given ID, if any.
    pub fn find_by_vector_id(&self, vector_id: i64) -> (r: Option<usize>)
        ensures
            match r {
                Some(i) => i < self.vector_ids@.len() && first_index_of(self.vector_ids@, vector_id)
                    == Some(i as int),
                None => first_index_of(self.vector_ids@, vector_id) is None,
            },
    {
        let mut i: usize = 0;
        while i < self.vector_ids.len()
            invariant
                i <= self.vector_ids@.len(),
                forall|j: int| 0 <= j < i ==> self.vector_ids@[j] != vector_id,
            decreases self.vector_ids@.len() - i,
        {
            if self.vector_ids[i] == vector_id {
                proof {
                    reveal(first_index_of);
                    let s = self.vector_ids@;
                    assert(exists|k: int| 0 <= k < s.len() && s[k] == vector_id);
                    let c = choose|k: int|
                        0 <= k < s.len() && s[k] == vector_id && forall|j: int| 0 <= j < k ==> s[j] != vector_id;
                    if c < i {
                    } else if c > i {
                        assert(s[i as int] == vector_id);
                    }
                }
                return Some(i);
            }
            i = i + 1;
        }
        proof {
            reveal(first_index_of);
        }
        None
    }

    /// The embedding of the first vector with the given ID, if any.
    pub fn get_embedding_by_id(&self, vector_id: i64) -> (r: Option<&[u32]>)
        requires
            self.wf(),
        ensures
            match first_index_of(self.vector_ids@, vector_id) {
                Some(i) => r matches Some(e) && e@ == embedding_at(
                    self.embeddings@,
                    self.dimensions as int,
                    i,
                ),
                None => r is None,
            },
    {
        match self.find_by_vector_id(vector_id) {
            Some(idx) => self.get_embedding(idx),
            None => None,
        }
    }

    /// Stops the segment from accepting inserts.
    pub fn make_immutable(&mut self)
        ensures
            final(self).is_immutable,
            final(self).id == old(self).id,
            final(self).vector_ids == old(self).vector_ids,
            final(self).embeddings == old(self).embeddings,
            final(self).deleted == old(self).deleted,
            final(self).dimensions == old(self).dimensions,
            final(self).capacity == old(self).capacity,
            final(self).count == old(self).count,
            final(self).created_txn == old(self).created_txn,
    {
        self.is_immutable = true;
    }

    /// The number of vectors not deleted.
    pub fn live_count(&self) -> (r: usize)
        ensures
            r == count_live(self.deleted@),
    {
        let mut n: usize = 0;
        let mut i: usize = 0;
        while i < self.deleted.len()
            invariant
                i <= self.deleted@.len(),
                n == count_live(self.deleted@.subrange(0, i as int)),
                n <= i,
            decreases self.deleted@.len() - i,
        {
            assert(self.deleted@.subrange(0, i + 1).drop_last() =~= self.deleted@.subrange(0, i as int));
            if !self.deleted[i] {
                n = n + 1;
            }
            i = i + 1;
        }
        assert(self.deleted@.subrange(0, i as int) =~= self.deleted@);
        n
    }

    /// The vectors listed for commitments: for each stored vector, in
    /// order, its ID and embedding, unless the first vector with the same
    /// ID is deleted.
    pub fn iter_vectors(&self) -> (r: Vec<(i64, Vec<u32>)>)
        requires
            self.wf(),
            self.dimensions > 0,
        ensures
            listed_view(r@) == listed_vectors(
                self.vector_ids@,
                self.embeddings@,
                self.deleted@,
                self.dimensions as int,
                self.count as int,
            ),
    {
        let mut out: Vec<(i64, Vec<u32>)> = Vec::new();
        let mut i: usize = 0;
        while i < self.count
            invariant
                self.wf(),
                i <= self.count,
                listed_view(out@) == listed_vectors(
                    self.vector_ids@,
                    self.embeddings@,
                    self.deleted@,
                    self.dimensions as int,
                    i as int,
                ),
            decreases self.count - i,
        {
            let id = self.vector_ids[i];
            let first = match self.find_by_vector_id(id) {
                Some(k) => k,
                None => 0,
            };
            let ghost prev = listed_vectors(
                self.vector_ids@,
                self.embeddings@,
                self.deleted@,
                self.dimensions as int,
                i as int,
            );
            let ghost next = listed_vectors(
                self.vector_ids@,
                self.embeddings@,
                self.deleted@,
                self.dimensions as int,
                i + 1,
            );
            if !self.deleted[first] {
                let emb = self.get_embedding(i).unwrap();
                let copy = slice_to_vec(emb);
                let ghost before = out@;
                out.push((id, copy));
                proof {
                    assert(next == prev.push((id, emb@)));
                    assert(listed_view(out@) =~= listed_view(before).push((id, emb@)));
                }
            } else {
                assert(next == prev);
            }
            i = i + 1;
        }
        out
    }
}


/// Reading after a push: the new slot holds the pushed embedding and ID,
/// earlier slots read as before, and an ID the segment did not hold is
/// then found at the new slot.
pub proof fn lemma_push_then_read(s: VectorSegment, t: VectorSegment, vector_id: i64, embedding: Seq<u32>)
    requires
        s.wf(),
        push_error(s, embedding.len()) is None,
        pushed(s, t, vector_id, embedding),
    ensures
        embedding_at(t.embeddings@, t.dimensions as int, s.count as int) == embedding,
        t.vector_ids@[s.count as int] == vector_id,
        forall|idx: int|
            0 <= idx < s.count ==> #[trigger] embedding_at(t.embeddings@, t.dimensions as int, idx)
                == embedding_at(s.embeddings@, s.dimensions as int, idx),
        first_index_of(s.vector_ids@, vector_id) is None ==> first_index_of(t.vector_ids@, vector_id)
            == Some(s.count as int),
{
    let d = s.dimensions as int;
    let c = s.count as int;
    lemma_slot_in_range(c, d, s.capacity as int);
    let off = c * d;
    assert(embedding_at(t.embeddings@, d, c) =~= embedding);
    assert forall|idx: int| 0 <= idx < s.count implies #[trigger] embedding_at(
        t.embeddings@,
        t.dimensions as int,
        idx,
    ) == embedding_at(s.embeddings@, s.dimensions as int, idx) by {
        assert(idx * d + d <= off) by (nonlinear_arith)
            requires
                0 <= idx < c,
                0 <= d,
                off == c * d,
        ;
        lemma_slot_in_range(idx, d, s.capacity as int);
        assert(embedding_at(t.embeddings@, d, idx) =~= embedding_at(s.embeddings@, d, idx));
    }
    reveal(first_index_of);
    if first_index_of(s.vector_ids@, vector_id) is None {
        let ids = t.vector_ids@;
        assert(ids[c] == vector_id);
        assert(forall|j: int| 0 <= j < c ==> ids[j] != vector_id);
        let i = choose|i: int|
            0 <= i < ids.len() && ids[i] == vector_id && forall|j: int| 0 <= j < i ==> ids[j] != vector_id;
        assert(0 <= i < ids.len() && ids[i] == vector_id && forall|j: int|
            0 <= j < i ==> ids[j] != vector_id);
        assert(i == c);
    }
}

} // verus!
