//! Hamming distance between binary-quantized vectors.

use vstd::prelude::*;

verus! {

/// The number of one bits of `x`.
pub open spec fn popcount(x: u8) -> nat
    decreases x,
{
    if x == 0 {
        0
    } else {
        proof {
            assert(x > 0 ==> x >> 1u8 < x) by (bit_vector);
        }
        (x & 1u8) as nat + popcount(x >> 1u8)
    }
}

/// The number of one bits of `x`.
pub fn count_ones(x: u8) -> (r: u32)
    ensures
        r == popcount(x),
        r <= 8,
{
    let mut v: u8 = x;
    let mut c: u32 = 0;
    let ghost mut steps: int = 0;
    assert(pow2_u8(8) == 256) by {
        reveal_with_fuel(pow2_u8, 9);
    }
    while v != 0
        invariant
            c + popcount(v) == popcount(x),
            c <= steps,
            steps <= 8,
            v < pow2_u8(8 - steps),
        decreases v,
    {
        assert(v > 0 ==> v >> 1u8 < v) by (bit_vector);
        assert((v & 1u8) <= 1) by (bit_vector);
        proof {
            lemma_shift_halves(v, steps);
        }
        c = c + (v & 1) as u32;
        v = v >> 1;
        proof { steps = steps + 1; }
    }
    c
}

/// `2^(k)` for `0 <= k <= 8`, as a bound on a byte.
pub open spec fn pow2_u8(k: int) -> int
    decreases k,
{
    if k <= 0 {
        1
    } else {
        2 * pow2_u8(k - 1)
    }
}

proof fn lemma_shift_halves(v: u8, steps: int)
    requires
        v != 0,
        0 <= steps <= 8,
        v < pow2_u8(8 - steps),
    ensures
        steps < 8,
        (v >> 1u8) < pow2_u8(8 - (steps + 1)),
{
    reveal_with_fuel(pow2_u8, 9);
    if steps == 8 {
        assert(false);
    }
    assert(v >> 1u8 == v / 2) by (bit_vector);
}

/// The Hamming distance between two bit strings: the number of bits in
/// which they differ.
pub open spec fn hamming(a: Seq<u8>, b: Seq<u8>) -> nat
    decreases a.len(),
{
    if a.len() == 0 {
        0
    } else {
        hamming(a.drop_last(), b.drop_last()) + popcount(a.last() ^ b.last())
    }
}

/// The number of bits in which `a` and `b` differ.
pub fn hamming_distance(a: &[u8], b: &[u8]) -> (r: usize)
    requires
        a@.len() == b@.len(),
        a@.len() * 8 <= usize::MAX,
    ensures
        r == hamming(a@, b@),
        r <= 8 * a@.len(),
{
    let mut distance: usize = 0;
    let mut i: usize = 0;
    while i < a.len()
        invariant
            a@.len() == b@.len(),
            a@.len() * 8 <= usize::MAX,
            i <= a@.len(),
            distance == hamming(a@.subrange(0, i as int), b@.subrange(0, i as int)),
            distance <= 8 * i,
        decreases a@.len() - i,
    {
        let d = count_ones(a[i] ^ b[i]);
        assert(a@.subrange(0, i + 1).drop_last() =~= a@.subrange(0, i as int));
        assert(b@.subrange(0, i + 1).drop_last() =~= b@.subrange(0, i as int));
        distance = distance + d as usize;
        i = i + 1;
    }
    assert(a@.subrange(0, i as int) =~= a@);
    assert(b@.subrange(0, i as int) =~= b@);
    distance
}

/// The Hamming distance is symmetric.
pub proof fn lemma_hamming_symmetric(a: Seq<u8>, b: Seq<u8>)
    requires
        a.len() == b.len(),
    ensures
        hamming(a, b) == hamming(b, a),
    decreases a.len(),
{
    if a.len() > 0 {
        lemma_hamming_symmetric(a.drop_last(), b.drop_last());
        let x = a.last();
        let y = b.last();
        assert(x ^ y == y ^ x) by (bit_vector);
    }
}

/// A bit string is at distance zero from itself only: the distance is
/// zero exactly when the strings are equal.
pub proof fn lemma_hamming_zero_iff_equal(a: Seq<u8>, b: Seq<u8>)
    requires
        a.len() == b.len(),
    ensures
        (hamming(a, b) == 0) == (a == b),
    decreases a.len(),
{
    if a.len() == 0 {
        assert(a =~= b);
    } else {
        lemma_hamming_zero_iff_equal(a.drop_last(), b.drop_last());
        let x = a.last();
        let y = b.last();
        lemma_popcount_zero(x ^ y);
        assert((x ^ y == 0) == (x == y)) by (bit_vector);
        if a == b {
            assert(a.drop_last() == b.drop_last());
        }
        if hamming(a, b) == 0 {
            assert(a =~= a.drop_last().push(x));
            assert(b =~= b.drop_last().push(y));
        }
    }
}

proof fn lemma_popcount_zero(x: u8)
    ensures
        (popcount(x) == 0) == (x == 0),
    decreases x,
{
    if x != 0 {
        assert(x != 0 && (x & 1u8) == 0 ==> (x >> 1u8) != 0) by (bit_vector);
        if (x & 1u8) == 0 {
            assert(x >> 1u8 < x) by (bit_vector) requires x != 0;
            lemma_popcount_zero(x >> 1u8);
        }
    }
}


/// A byte below `2^k` has at most `k` one bits.
proof fn lemma_popcount_bound(x: u8, k: int)
    requires
        0 <= k <= 8,
        x < pow2_u8(k),
    ensures
        popcount(x) <= k,
    decreases k,
{
    if x != 0 {
        reveal_with_fuel(pow2_u8, 9);
        assert(k > 0);
        assert(x >> 1u8 == x / 2) by (bit_vector);
        assert((x & 1u8) <= 1) by (bit_vector);
        lemma_popcount_bound(x >> 1u8, k - 1);
    }
}

/// Two bit strings of `n` bytes differ in at most `8 * n` bits.
pub proof fn lemma_hamming_bound(a: Seq<u8>, b: Seq<u8>)
    requires
        a.len() == b.len(),
    ensures
        hamming(a, b) <= 8 * a.len(),
    decreases a.len(),
{
    if a.len() > 0 {
        lemma_hamming_bound(a.drop_last(), b.drop_last());
        assert(pow2_u8(8) == 256) by {
            reveal_with_fuel(pow2_u8, 9);
        }
        lemma_popcount_bound(a.last() ^ b.last(), 8);
    }
}

} // verus!
