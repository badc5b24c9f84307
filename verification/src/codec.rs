//! Fixed-width integer byte encodings shared by the wire formats.

use vstd::prelude::*;
use vstd::bytes::*;

use crate::storage::vector::wal::lemma_le32_words_len;

verus! {

broadcast use vstd::seq_lib::group_seq_properties;

/// Big-endian bytes of a 64-bit word.
pub open spec fn be64(x: u64) -> Seq<u8> {
    Seq::new(8, |i: int| spec_u64_to_le_bytes(x)[7 - i])
}

/// The 64-bit word whose big-endian bytes are `s` (eight of them).
pub open spec fn from_be64(s: Seq<u8>) -> u64 {
    spec_u64_from_le_bytes(Seq::new(8, |i: int| s[7 - i]))
}

/// Little-endian bytes of a 64-bit word.
pub open spec fn le64(x: u64) -> Seq<u8> {
    spec_u64_to_le_bytes(x)
}

/// The 64-bit word whose little-endian bytes are `s` (eight of them).
pub open spec fn from_le64(s: Seq<u8>) -> u64 {
    spec_u64_from_le_bytes(s)
}

/// Little-endian bytes of a 32-bit word.
pub open spec fn le32(x: u32) -> Seq<u8> {
    spec_u32_to_le_bytes(x)
}

/// The 32-bit word whose little-endian bytes are `s` (four of them).
pub open spec fn from_le32(s: Seq<u8>) -> u32 {
    spec_u32_from_le_bytes(s)
}

/// Little-endian bytes of a 16-bit word.
pub open spec fn le16(x: u16) -> Seq<u8> {
    spec_u16_to_le_bytes(x)
}

/// The 16-bit word whose little-endian bytes are `s` (two of them).
pub open spec fn from_le16(s: Seq<u8>) -> u16 {
    spec_u16_from_le_bytes(s)
}

/// Reading back a big-endian word gives the word, and the encoding has eight bytes.
pub proof fn lemma_be64_roundtrip(x: u64)
    ensures
        be64(x).len() == 8,
        from_be64(be64(x)) == x,
{
    lemma_auto_spec_u64_to_from_le_bytes();
    let le = spec_u64_to_le_bytes(x);
    assert(Seq::new(8, |i: int| be64(x)[7 - i]) =~= le);
}

/// Reading back a little-endian word gives the word, and the encoding has the word's width.
pub proof fn lemma_le_roundtrips(x64: u64, x32: u32, x16: u16)
    ensures
        le64(x64).len() == 8,
        from_le64(le64(x64)) == x64,
        le32(x32).len() == 4,
        from_le32(le32(x32)) == x32,
        le16(x16).len() == 2,
        from_le16(le16(x16)) == x16,
{
    assert(le64(x64).len() == 8 && from_le64(le64(x64)) == x64) by {
        lemma_auto_spec_u64_to_from_le_bytes();
    }
    assert(le32(x32).len() == 4 && from_le32(le32(x32)) == x32) by {
        lemma_auto_spec_u32_to_from_le_bytes();
    }
    assert(le16(x16).len() == 2 && from_le16(le16(x16)) == x16) by {
        lemma_auto_spec_u16_to_from_le_bytes();
    }
}

/// Appends `bytes` to `buf`.
pub fn push_all(buf: &mut Vec<u8>, bytes: &[u8])
    ensures
        final(buf)@ == old(buf)@ + bytes@,
{
    let mut i: usize = 0;
    while i < bytes.len()
        invariant
            i <= bytes@.len(),
            buf@ == old(buf)@ + bytes@.subrange(0, i as int),
        decreases bytes@.len() - i,
    {
        buf.push(bytes[i]);
        assert(bytes@.subrange(0, i + 1) =~= bytes@.subrange(0, i as int).push(bytes@[i as int]));
        i = i + 1;
    }
    assert(bytes@.subrange(0, bytes@.len() as int) =~= bytes@);
}

/// Appends the big-endian bytes of `x`.
pub fn push_be64(buf: &mut Vec<u8>, x: u64)
    ensures
        final(buf)@ == old(buf)@ + be64(x),
{
    proof { lemma_be64_roundtrip(x); }
    let le = u64_to_le_bytes(x);
    let mut k: usize = 8;
    while k > 0
        invariant
            k <= 8,
            le@ == spec_u64_to_le_bytes(x),
            le@.len() == 8,
            buf@ == old(buf)@ + be64(x).subrange(0, 8 - k),
        decreases k,
    {
        k = k - 1;
        buf.push(le[k]);
        assert(be64(x).subrange(0, 8 - k) =~= be64(x).subrange(0, 8 - (k + 1)).push(le@[k as int]));
    }
    assert(be64(x).subrange(0, 8) =~= be64(x));
}

/// Appends the little-endian bytes of `x`.
pub fn push_le64(buf: &mut Vec<u8>, x: u64)
    ensures
        final(buf)@ == old(buf)@ + le64(x),
{
    let le = u64_to_le_bytes(x);
    push_all(buf, le.as_slice());
}

/// Appends the little-endian bytes of `x`.
pub fn push_le32(buf: &mut Vec<u8>, x: u32)
    ensures
        final(buf)@ == old(buf)@ + le32(x),
{
    let le = u32_to_le_bytes(x);
    push_all(buf, le.as_slice());
}

/// Appends the little-endian bytes of `x`.
pub fn push_le16(buf: &mut Vec<u8>, x: u16)
    ensures
        final(buf)@ == old(buf)@ + le16(x),
{
    let le = u16_to_le_bytes(x);
    push_all(buf, le.as_slice());
}

/// Reads the big-endian word at `pos`.
pub fn read_be64(data: &[u8], pos: usize) -> (r: u64)
    requires
        pos + 8 <= data@.len(),
    ensures
        r == from_be64(data@.subrange(pos as int, pos + 8)),
{
    let n = data.len();
    let mut rev: Vec<u8> = Vec::new();
    let mut k: usize = 8;
    while k > 0
        invariant
            k <= 8,
            n == data@.len(),
            pos + 8 <= data@.len(),
            rev@.len() == 8 - k,
            forall|i: int| 0 <= i < 8 - k ==> rev@[i] == data@[pos + 7 - i],
        decreases k,
    {
        k = k - 1;
        rev.push(data[pos + k]);
    }
    assert(rev@ =~= Seq::new(8, |i: int| data@.subrange(pos as int, pos + 8)[7 - i]));
    u64_from_le_bytes(rev.as_slice())
}

/// Copies `data[pos..pos + len]`.
pub fn copy_range(data: &[u8], pos: usize, len: usize) -> (r: Vec<u8>)
    requires
        pos + len <= data@.len(),
    ensures
        r@ == data@.subrange(pos as int, pos + len),
{
    let n = data.len();
    let mut out: Vec<u8> = Vec::new();
    let mut i: usize = 0;
    while i < len
        invariant
            i <= len,
            n == data@.len(),
            pos + len <= data@.len(),
            out@ == data@.subrange(pos as int, pos + i),
        decreases len - i,
    {
        out.push(data[pos + i]);
        assert(data@.subrange(pos as int, pos + i + 1) =~= data@.subrange(pos as int, pos + i).push(data@[pos + i]));
        i = i + 1;
    }
    out
}

/// Reads the little-endian 64-bit word at `pos`.
pub fn read_le64(data: &[u8], pos: usize) -> (r: u64)
    requires
        pos + 8 <= data@.len(),
    ensures
        r == from_le64(data@.subrange(pos as int, pos + 8)),
{
    let v = copy_range(data, pos, 8);
    u64_from_le_bytes(v.as_slice())
}

/// Reads the little-endian 32-bit word at `pos`.
pub fn read_le32(data: &[u8], pos: usize) -> (r: u32)
    requires
        pos + 4 <= data@.len(),
    ensures
        r == from_le32(data@.subrange(pos as int, pos + 4)),
{
    let v = copy_range(data, pos, 4);
    u32_from_le_bytes(v.as_slice())
}

/// Reads the little-endian 16-bit word at `pos`.
pub fn read_le16(data: &[u8], pos: usize) -> (r: u16)
    requires
        pos + 2 <= data@.len(),
    ensures
        r == from_le16(data@.subrange(pos as int, pos + 2)),
{
    let v = copy_range(data, pos, 2);
    u16_from_le_bytes(v.as_slice())
}

/// The little-endian bytes of each 32-bit word, one after the other.
pub open spec fn le32_words(ws: Seq<u32>) -> Seq<u8>
    decreases ws.len(),
{
    if ws.len() == 0 {
        Seq::empty()
    } else {
        le32_words(ws.drop_last()) + le32(ws.last())
    }
}

/// The little-endian bytes of each 64-bit word, one after the other.
pub open spec fn le64_words(ws: Seq<u64>) -> Seq<u8>
    decreases ws.len(),
{
    if ws.len() == 0 {
        Seq::empty()
    } else {
        le64_words(ws.drop_last()) + le64(ws.last())
    }
}

/// Appends the little-endian bytes of each word of `ws`.
pub fn push_le32_words(buf: &mut Vec<u8>, ws: &[u32])
    ensures
        final(buf)@ == old(buf)@ + le32_words(ws@),
{
    let mut i: usize = 0;
    while i < ws.len()
        invariant
            i <= ws@.len(),
            buf@ == old(buf)@ + le32_words(ws@.subrange(0, i as int)),
        decreases ws@.len() - i,
    {
        let ghost before = buf@;
        push_le32(buf, ws[i]);
        assert(ws@.subrange(0, i + 1).drop_last() =~= ws@.subrange(0, i as int));
        assert(buf@ =~= old(buf)@ + le32_words(ws@.subrange(0, i + 1)));
        i = i + 1;
    }
    assert(ws@.subrange(0, ws@.len() as int) =~= ws@);
}

/// Appends the little-endian bytes of each word of `ws`.
pub fn push_le64_words(buf: &mut Vec<u8>, ws: &[u64])
    ensures
        final(buf)@ == old(buf)@ + le64_words(ws@),
{
    let mut i: usize = 0;
    while i < ws.len()
        invariant
            i <= ws@.len(),
            buf@ == old(buf)@ + le64_words(ws@.subrange(0, i as int)),
        decreases ws@.len() - i,
    {
        push_le64(buf, ws[i]);
        assert(ws@.subrange(0, i + 1).drop_last() =~= ws@.subrange(0, i as int));
        assert(buf@ =~= old(buf)@ + le64_words(ws@.subrange(0, i + 1)));
        i = i + 1;
    }
    assert(ws@.subrange(0, ws@.len() as int) =~= ws@);
}

/// The words whose little-endian bytes fill `data[pos..pos + 4 * n]`.
pub fn read_le32_words(data: &[u8], pos: usize, n: usize) -> (r: Vec<u32>)
    requires
        pos + 4 * n <= data@.len(),
    ensures
        le32_words(r@) == data@.subrange(pos as int, pos + 4 * n),
        r@.len() == n,
{
    let dl = data.len();
    let mut out: Vec<u32> = Vec::new();
    let mut i: usize = 0;
    while i < n
        invariant
            dl == data@.len(),
            pos + 4 * n <= data@.len(),
            i <= n,
            out@.len() == i,
            le32_words(out@) == data@.subrange(pos as int, pos + 4 * i),
        decreases n - i,
    {
        let w = read_le32(data, pos + 4 * i);
        let ghost before = out@;
        out.push(w);
        proof {
            lemma_u32_le_bytes_of_read(data@.subrange(pos + 4 * i, pos + 4 * i + 4));
            assert(out@.drop_last() =~= before);
            assert(data@.subrange(pos as int, pos + 4 * (i + 1)) =~= data@.subrange(pos as int, pos + 4 * i) + data@.subrange(pos + 4 * i, pos + 4 * i + 4));
        }
        i = i + 1;
    }
    out
}

/// Four bytes are the little-endian bytes of the word they encode.
pub proof fn lemma_u32_le_bytes_of_read(s: Seq<u8>)
    requires
        s.len() == 4,
    ensures
        le32(from_le32(s)) == s,
{
    lemma_auto_spec_u32_to_from_le_bytes();
}


/// The bytes of two word lists joined are their bytes joined.
pub proof fn lemma_le32_words_concat(a: Seq<u32>, b: Seq<u32>)
    ensures
        le32_words(a + b) == le32_words(a) + le32_words(b),
    decreases b.len(),
{
    if b.len() == 0 {
        assert(a + b =~= a);
        assert(le32_words(a) + le32_words(b) =~= le32_words(a));
    } else {
        lemma_le32_words_concat(a, b.drop_last());
        assert((a + b).drop_last() =~= a + b.drop_last());
        assert((a + b).last() == b.last());
        assert(le32_words(a) + le32_words(b.drop_last()) + le32(b.last()) =~= le32_words(a)
            + le32_words(b));
    }
}

/// Bytes `4 * i .. 4 * j` of a word list's bytes are the bytes of words
/// `i .. j`.
pub proof fn lemma_le32_words_subrange(s: Seq<u32>, i: int, j: int)
    requires
        0 <= i <= j <= s.len(),
    ensures
        le32_words(s).subrange(4 * i, 4 * j) == le32_words(s.subrange(i, j)),
{
    let a = s.subrange(0, i);
    let b = s.subrange(i, j);
    let c = s.subrange(j, s.len() as int);
    assert(s =~= a + b + c);
    lemma_le32_words_concat(a + b, c);
    lemma_le32_words_concat(a, b);
    lemma_le32_words_len(a);
    lemma_le32_words_len(b);
    assert((le32_words(a) + le32_words(b) + le32_words(c)).subrange(4 * i, 4 * j) =~= le32_words(b));
}

/// Word lists of the same bytes are the same.
pub proof fn lemma_le32_words_injective(a: Seq<u32>, b: Seq<u32>)
    requires
        le32_words(a) == le32_words(b),
    ensures
        a == b,
    decreases a.len(),
{
    lemma_le32_words_len(a);
    lemma_le32_words_len(b);
    if a.len() > 0 {
        let n = le32_words(a).len() as int;
        lemma_le32_words_len(a.drop_last());
        lemma_le32_words_len(b.drop_last());
        lemma_le_roundtrips(0, a.last(), 0);
        lemma_le_roundtrips(0, b.last(), 0);
        assert(le32_words(a).subrange(n - 4, n) =~= le32(a.last()));
        assert(le32_words(b).subrange(n - 4, n) =~= le32(b.last()));
        assert(le32_words(a).subrange(0, n - 4) =~= le32_words(a.drop_last()));
        assert(le32_words(b).subrange(0, n - 4) =~= le32_words(b.drop_last()));
        lemma_le32_words_injective(a.drop_last(), b.drop_last());
        assert(a =~= a.drop_last().push(a.last()));
        assert(b =~= b.drop_last().push(b.last()));
    } else {
        assert(a =~= b);
    }
}

} // verus!
