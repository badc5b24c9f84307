//! Hash mixing of 64-bit words.

use vstd::prelude::*;

verus! {

/// WyHash-style mixing: the 128-bit product of `a` and `b`, its low and
/// high halves XORed together.
pub open spec fn wymix_spec(a: u64, b: u64) -> u64 {
    let r = (a as u128 * b as u128) as u128;
    (r as u64) ^ ((r >> 64u128) as u64)
}

/// WyHash-style mixing of two words (see `wymix_spec`).
pub fn wymix(a: u64, b: u64) -> (r: u64)
    ensures
        r == wymix_spec(a, b),
{
    assert((a as u128) * (b as u128) <= u128::MAX) by (nonlinear_arith)
        requires
            a <= u64::MAX,
            b <= u64::MAX,
    ;
    let r = (a as u128) * (b as u128);
    (r as u64) ^ ((r >> 64) as u64)
}

} // verus!
