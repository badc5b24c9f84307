//! Mutable segments that are written to disk as memory-mappable files.
//! Components are 32-bit floats, held as their bit patterns; the vector
//! file is the header `vec1` followed by the components' little-endian
//! bytes, the deletion file is one bit per vector.

use vstd::prelude::*;
use crate::codec::{
    le32_words, lemma_le32_words_injective, lemma_le32_words_subrange, push_all, push_le32_words,
    read_le32_words,
};
use crate::storage::vector::wal::lemma_le32_words_len;
use crate::error::{Error, Result};
use crate::storage::vector::quantization::config::{bytes_for_bits, div_ceil8};
use crate::storage::vector::quantization::quantizer::bit_of;
use crate::storage::vector::segment::overwrite;

verus! {

/// Header of the vector file.
pub open spec fn vectors_header() -> Seq<u8> {
    seq![0x76u8, 0x65u8, 0x63u8, 0x31u8]
}

/// A segment being filled in memory before it is written to disk.
pub struct MmapVectorSegmentMut {
    /// Segment ID
    pub id: u64,
    vectors: Vec<u32>,
    deleted: Vec<u8>,
    vector_ids: Vec<i64>,
    dimension: usize,
    capacity: usize,
    count: usize,
}

proof fn lemma_slot(idx: int, dims: int, cap: int)
    requires
        0 <= idx < cap,
        0 <= dims,
    ensures
        0 <= idx * dims,
        idx * dims + dims <= dims * cap,
        (idx + 1) * dims == idx * dims + dims,
{
    assert(idx * dims + dims <= dims * cap) by (nonlinear_arith)
        requires
            0 <= idx < cap,
            0 <= dims,
    ;
    assert(0 <= idx * dims) by (nonlinear_arith)
        requires
            0 <= idx,
            0 <= dims,
    ;
    assert((idx + 1) * dims == idx * dims + dims) by (nonlinear_arith);
}

proof fn lemma_set_bit_u8(x: u8, k0: u8, k: u8)
    requires
        k0 < 8,
        k < 8,
    ensures
        (((x | (1u8 << k0)) >> k) & 1u8 == 1u8) == (k == k0 || ((x >> k) & 1u8) == 1u8),
{
    assert((((x | (1u8 << k0)) >> k) & 1u8 == 1u8) == (k == k0 || ((x >> k) & 1u8) == 1u8))
        by (bit_vector)
        requires
            k0 < 8,
            k < 8,
    ;
}

impl MmapVectorSegmentMut {
    /// The lengths of the parts agree with the count and the capacity.
    pub closed spec fn wf(self) -> bool {
        &&& self.vectors@.len() == self.dimension * self.capacity
        &&& self.deleted@.len() == bytes_for_bits(self.capacity as int)
        &&& self.vector_ids@.len() == self.count
        &&& self.count <= self.capacity
    }

    /// The segment ID.
    pub closed spec fn seg_id(self) -> u64 {
        self.id
    }

    /// The component slots, `dimension` per vector.
    pub closed spec fn slots(self) -> Seq<u32> {
        self.vectors@
    }

    /// The deletion bits, one per vector, packed eight to a byte.
    pub closed spec fn deletion_bits(self) -> Seq<u8> {
        self.deleted@
    }

    /// The IDs of the stored vectors.
    pub closed spec fn ids(self) -> Seq<i64> {
        self.vector_ids@
    }

    /// The number of components per vector.
    pub closed spec fn dim(self) -> usize {
        self.dimension
    }

    /// The number of vectors the segment can hold.
    pub closed spec fn cap(self) -> usize {
        self.capacity
    }

    /// The number of stored vectors.
    pub closed spec fn len(self) -> usize {
        self.count
    }

    /// An empty segment; all slots and deletion bits are zero.
    pub fn new(id: u64, dimension: usize, capacity: usize) -> (r: Self)
        requires
            dimension * capacity <= usize::MAX,
        ensures
            r.wf(),
            r.seg_id() == id,
            r.dim() == dimension,
            r.cap() == capacity,
            r.len() == 0,
            r.ids() == Seq::<i64>::empty(),
            r.slots() == Seq::new((dimension * capacity) as nat, |i: int| 0u32),
            r.deletion_bits() == Seq::new(bytes_for_bits(capacity as int) as nat, |i: int| 0u8),
    {
        let vectors = vec![0u32; dimension * capacity];
        let deleted = vec![0u8; div_ceil8(capacity)];
        let r = MmapVectorSegmentMut {
            id,
            vectors,
            deleted,
            vector_ids: Vec::new(),
            dimension,
            capacity,
            count: 0,
        };
        assert(r.slots() =~= Seq::new((dimension * capacity) as nat, |i: int| 0u32));
        assert(r.deletion_bits() =~= Seq::new(bytes_for_bits(capacity as int) as nat, |i: int| 0u8));
        assert(r.ids() =~= Seq::<i64>::empty());
        r
    }

    /// Adds a vector and returns its index. Fails, changing nothing, when
    /// the segment is full or the embedding has the wrong number of
    /// components (checked in that order).
    pub fn push(&mut self, vector_id: i64, embedding: &[u32]) -> (r: Result<usize>)
        requires
            old(self).wf(),
        ensures
            final(self).wf(),
            final(self).seg_id() == old(self).seg_id(),
            final(self).dim() == old(self).dim(),
            final(self).cap() == old(self).cap(),
            final(self).deletion_bits() == old(self).deletion_bits(),
            old(self).len() >= old(self).cap() ==> r == Err::<usize, Error>(
                Error::SegmentFull(old(self).seg_id()),
            ) && *final(self) == *old(self),
            old(self).len() < old(self).cap() && embedding@.len() != old(self).dim() ==> r == Err::<
                usize,
                Error,
            >(
                Error::InvalidVectorDimension {
                    expected: old(self).dim(),
                    got: embedding@.len() as usize,
                },
            ) && *final(self) == *old(self),
            old(self).len() < old(self).cap() && embedding@.len() == old(self).dim() ==> r == Ok::<
                usize,
                Error,
            >(old(self).len()) && final(self).len() == old(self).len() + 1 && final(self).ids()
                == old(self).ids().push(vector_id) && final(self).slots() == overwrite(
                old(self).slots(),
                old(self).len() * old(self).dim(),
                embedding@,
            ),
    {
        if self.count >= self.capacity {
            return Err(Error::SegmentFull(self.id));
        }
        if embedding.len() != self.dimension {
            return Err(Error::InvalidVectorDimension { expected: self.dimension, got: embedding.len() });
        }
        let idx = self.count;
        let dims = self.dimension;
        let vl = self.vectors.len();
        proof {
            lemma_slot(idx as int, dims as int, self.capacity as int);
        }
        let offset = idx * dims;
        let ghost before = self.vectors@;
        let mut j: usize = 0;
        while j < dims
            invariant
                self.count == idx,
                idx == old(self).count,
                idx < self.capacity,
                self.capacity == old(self).capacity,
                self.dimension == dims,
                dims == old(self).dimension,
                dims == embedding@.len(),
                self.vector_ids == old(self).vector_ids,
                self.deleted == old(self).deleted,
                self.id == old(self).id,
                old(self).wf(),
                offset == idx * dims,
                offset + dims <= before.len(),
                vl == before.len(),
                before == old(self).vectors@,
                self.vectors@.len() == before.len(),
                j <= dims,
                self.vectors@ == overwrite(before, offset as int, embedding@.subrange(0, j as int)),
            decreases dims - j,
        {
            self.vectors.set(offset + j, embedding[j]);
            assert(self.vectors@ =~= overwrite(before, offset as int, embedding@.subrange(0, j + 1)));
            j = j + 1;
        }
        assert(embedding@.subrange(0, dims as int) =~= embedding@);
        self.vector_ids.push(vector_id);
        self.count = self.count + 1;
        Ok(idx)
    }

    /// Marks vector `idx` deleted by setting its bit; fails with
    /// `IndexOutOfBounds` when the segment holds no vector there.
    pub fn delete(&mut self, idx: usize) -> (r: Result<()>)
        requires
            old(self).wf(),
        ensures
            final(self).wf(),
            final(self).seg_id() == old(self).seg_id(),
            final(self).dim() == old(self).dim(),
            final(self).cap() == old(self).cap(),
            final(self).len() == old(self).len(),
            final(self).ids() == old(self).ids(),
            final(self).slots() == old(self).slots(),
            idx >= old(self).len() ==> r == Err::<(), Error>(
                Error::IndexOutOfBounds(idx, old(self).len()),
            ) && final(self).deletion_bits() == old(self).deletion_bits(),
            idx < old(self).len() ==> r is Ok && final(self).deletion_bits().len()
                == old(self).deletion_bits().len() && forall|q: int, k: int|
                0 <= q < old(self).deletion_bits().len() && 0 <= k < 8 ==> #[trigger] bit_of(
                    final(self).deletion_bits()[q],
                    k,
                ) == (8 * q + k == idx || bit_of(old(self).deletion_bits()[q], k)),
    {
        if idx >= self.count {
            return Err(Error::IndexOutOfBounds(idx, self.count));
        }
        let byte_idx = idx / 8;
        let bit_idx = (idx % 8) as u8;
        let ghost before = self.deleted@;
        let b = self.deleted[byte_idx];
        self.deleted.set(byte_idx, b | (1u8 << bit_idx));
        proof {
            assert forall|q: int, k: int| 0 <= q < before.len() && 0 <= k < 8 implies #[trigger] bit_of(
                self.deleted@[q],
                k,
            ) == (8 * q + k == idx || bit_of(before[q], k)) by {
                if q == byte_idx {
                    lemma_set_bit_u8(b, bit_idx, k as u8);
                }
            }
        }
        Ok(())
    }

    /// Whether the segment holds as many vectors as it can.
    pub fn is_full(&self) -> (r: bool)
        ensures
            r == (self.len() >= self.cap()),
    {
        self.count >= self.capacity
    }

    /// The number of stored vectors.
    pub fn count(&self) -> (r: usize)
        ensures
            r == self.len(),
    {
        self.count
    }

    /// The number of components per vector.
    pub fn dimension(&self) -> (r: usize)
        ensures
            r == self.dim(),
    {
        self.dimension
    }

    /// The number of vectors the segment can hold.
    pub fn capacity(&self) -> (r: usize)
        ensures
            r == self.cap(),
    {
        self.capacity
    }

    /// The IDs of the stored vectors.
    pub fn vector_ids(&self) -> (r: &[i64])
        ensures
            r@ == self.ids(),
    {
        self.vector_ids.as_slice()
    }

    /// The contents of the vector file: the header, then the components
    /// of the stored vectors.
    pub fn vectors_file(&self) -> (r: Vec<u8>)
        requires
            self.wf(),
        ensures
            r@ == vectors_header() + le32_words(
                self.slots().subrange(0, self.dim() * self.len()),
            ),
    {
        let mut out: Vec<u8> = Vec::new();
        out.push(0x76);
        out.push(0x65);
        out.push(0x63);
        out.push(0x31);
        let n = self.count;
        let d = self.dimension;
        let vl = self.vectors.len();
        proof {
            if n > 0 {
                lemma_slot((n - 1) as int, d as int, self.capacity as int);
            }
            assert(d * n <= d * self.capacity) by (nonlinear_arith)
                requires
                    n <= self.capacity,
            ;
        }
        let used = vstd::slice::slice_subrange(self.vectors.as_slice(), 0, d * n);
        push_le32_words(&mut out, used);
        assert(out@ =~= vectors_header() + le32_words(self.slots().subrange(0, self.dim() * self.len())));
        out
    }

    /// The contents of the deletion file: the bytes holding the bits of
    /// the stored vectors.
    pub fn deleted_file(&self) -> (r: Vec<u8>)
        requires
            self.wf(),
        ensures
            r@ == self.deletion_bits().subrange(0, bytes_for_bits(self.len() as int)),
    {
        let n = div_ceil8(self.count);
        let used = vstd::slice::slice_subrange(self.deleted.as_slice(), 0, n);
        let mut out: Vec<u8> = Vec::new();
        push_all(&mut out, used);
        assert(out@ =~= self.deletion_bits().subrange(0, bytes_for_bits(self.len() as int)));
        out
    }
}

/// Whether the deletion bits of a loaded segment mark vector `idx`
/// deleted: false past the stored vectors or past the bits.
pub fn deletion_bit(deleted: &[u8], count: usize, idx: usize) -> (r: bool)
    ensures
        r == (idx < count && idx / 8 < deleted@.len() && bit_of(deleted@[(idx / 8) as int], (idx % 8) as int)),
{
    if idx >= count {
        return false;
    }
    let byte_idx = idx / 8;
    let bit_idx = (idx % 8) as u8;
    if byte_idx >= deleted.len() {
        return false;
    }
    let b = deleted[byte_idx];
    let r = (b & (1u8 << bit_idx)) != 0;
    assert(((b & (1u8 << bit_idx)) != 0) == (((b >> bit_idx) & 1u8) == 1u8)) by (bit_vector)
        requires
            bit_idx < 8,
    ;
    r
}


/// The component bit patterns of vector `idx` of a loaded segment: after
/// the 4-byte header, each vector takes `4 * dimension` bytes, so vector
/// `idx` is the `dimension` little-endian words from byte
/// `4 + 4 * idx * dimension`. `None` past the stored vectors or past the
/// end of the file.
pub fn mapped_embedding(vectors: &[u8], count: usize, dimension: usize, idx: usize) -> (r: Option<
    Vec<u32>,
>)
    requires
        idx < count ==> 4 + 4 * (idx * dimension + dimension) <= usize::MAX,
    ensures
        idx >= count || 4 + 4 * (idx * dimension + dimension) > vectors@.len() ==> r is None,
        idx < count && 4 + 4 * (idx * dimension + dimension) <= vectors@.len() ==> (r matches Some(w)
            && w@.len() == dimension && le32_words(w@) == vectors@.subrange(
            4 + 4 * (idx * dimension),
            4 + 4 * (idx * dimension + dimension),
        )),
{
    if idx >= count {
        return None;
    }
    let start = 4 + 4 * (idx * dimension);
    let end = start + 4 * dimension;
    if end > vectors.len() {
        return None;
    }
    Some(read_le32_words(vectors, start, dimension))
}

/// Reading vector `idx` back from the file that `vectors_file` writes
/// gives the components stored in its slot: those bytes encode exactly
/// the slot's words, and no other words.
pub proof fn lemma_mapped_reads_back(seg: MmapVectorSegmentMut, idx: int)
    requires
        seg.wf(),
        0 <= idx < seg.len(),
    ensures
        ({
            let d = seg.dim() as int;
            let file = vectors_header() + le32_words(seg.slots().subrange(0, d * seg.len()));
            &&& 4 + 4 * (idx * d + d) <= file.len()
            &&& file.subrange(4 + 4 * (idx * d), 4 + 4 * (idx * d + d)) == le32_words(
                seg.slots().subrange(idx * d, idx * d + d),
            )
            &&& forall|w: Seq<u32>|
                le32_words(w) == file.subrange(4 + 4 * (idx * d), 4 + 4 * (idx * d + d)) ==> w
                    == seg.slots().subrange(idx * d, idx * d + d)
        }),
{
    let d = seg.dim() as int;
    let n = seg.len() as int;
    let used = seg.slots().subrange(0, d * n);
    assert(idx * d + d <= d * n) by (nonlinear_arith)
        requires
            0 <= idx < n,
            0 <= d,
    ;
    assert(0 <= idx * d) by (nonlinear_arith)
        requires
            0 <= idx,
            0 <= d,
    ;
    assert(d * n <= seg.slots().len()) by (nonlinear_arith)
        requires
            seg.slots().len() == d * seg.cap(),
            n <= seg.cap(),
            0 <= d,
    ;
    lemma_le32_words_len(used);
    lemma_le32_words_subrange(used, idx * d, idx * d + d);
    assert(used.subrange(idx * d, idx * d + d) =~= seg.slots().subrange(idx * d, idx * d + d));
    let file = vectors_header() + le32_words(used);
    assert(file.subrange(4 + 4 * (idx * d), 4 + 4 * (idx * d + d)) =~= le32_words(used).subrange(
        4 * (idx * d),
        4 * (idx * d + d),
    ));
    assert forall|w: Seq<u32>|
        le32_words(w) == file.subrange(4 + 4 * (idx * d), 4 + 4 * (idx * d + d)) implies w
            == seg.slots().subrange(idx * d, idx * d + d) by {
        lemma_le32_words_injective(w, seg.slots().subrange(idx * d, idx * d + d));
    }
}


/// After a successful push, the new slot holds the pushed embedding and
/// every earlier slot holds what it held; with `lemma_mapped_reads_back`,
/// each vector read back from the written file is the one pushed there.
pub proof fn lemma_push_then_slots(s: MmapVectorSegmentMut, t: MmapVectorSegmentMut, embedding: Seq<u32>)
    requires
        s.wf(),
        s.len() < s.cap(),
        embedding.len() == s.dim(),
        t.len() == s.len() + 1,
        t.dim() == s.dim(),
        t.slots() == overwrite(s.slots(), s.len() * s.dim(), embedding),
    ensures
        t.slots().subrange(s.len() * s.dim(), s.len() * s.dim() + s.dim()) == embedding,
        forall|idx: int|
            0 <= idx < s.len() ==> #[trigger] t.slots().subrange(idx * s.dim(), idx * s.dim() + s.dim())
                == s.slots().subrange(idx * s.dim(), idx * s.dim() + s.dim()),
{
    let d = s.dim() as int;
    let c = s.len() as int;
    lemma_slot(c, d, s.cap() as int);
    assert(t.slots().subrange(c * d, c * d + d) =~= embedding);
    assert forall|idx: int| 0 <= idx < s.len() implies #[trigger] t.slots().subrange(
        idx * s.dim(),
        idx * s.dim() + s.dim(),
    ) == s.slots().subrange(idx * s.dim(), idx * s.dim() + s.dim()) by {
        lemma_slot(idx, d, s.cap() as int);
        assert(idx * d + d <= c * d) by (nonlinear_arith)
            requires
                0 <= idx < c,
                0 <= d,
        ;
        assert(t.slots().subrange(idx * d, idx * d + d) =~= s.slots().subrange(idx * d, idx * d + d));
    }
}

} // verus!
