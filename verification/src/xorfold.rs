//! XOR folding of byte strings into a 32-byte state, the mixing step of the
//! lightweight content hashes.

use vstd::prelude::*;

verus! {

/// `state` after XORing byte `i` of `bytes` into slot `(i + offset) % 32`.
pub open spec fn xor_at(state: Seq<u8>, bytes: Seq<u8>, offset: int) -> Seq<u8>
    decreases bytes.len(),
{
    if bytes.len() == 0 {
        state
    } else {
        let prev = xor_at(state, bytes.drop_last(), offset);
        let slot = (bytes.len() - 1 + offset) % 32;
        prev.update(slot, prev[slot] ^ bytes.last())
    }
}

/// `state` with `other` XORed slot by slot.
pub open spec fn xor_each(state: Seq<u8>, other: Seq<u8>) -> Seq<u8> {
    Seq::new(32, |i: int| state[i] ^ other[i])
}

/// Thirty-two zero bytes.
pub open spec fn zero32() -> Seq<u8> {
    Seq::new(32, |i: int| 0u8)
}

/// Folding keeps the state's 32 slots.
pub proof fn lemma_xor_at_len(state: Seq<u8>, bytes: Seq<u8>, offset: int)
    requires
        state.len() == 32,
        offset >= 0,
    ensures
        xor_at(state, bytes, offset).len() == 32,
    decreases bytes.len(),
{
    if bytes.len() > 0 {
        lemma_xor_at_len(state, bytes.drop_last(), offset);
    }
}

/// XORs byte `i` of `bytes` into slot `(i + offset) % 32` of `state`.
pub fn xor_bytes_into(state: &mut [u8; 32], bytes: &[u8], offset: usize)
    requires
        offset <= 32,
    ensures
        final(state)@ == xor_at(old(state)@, bytes@, offset as int),
{
    let ghost init = state@;
    let mut i: usize = 0;
    while i < bytes.len()
        invariant
            i <= bytes@.len(),
            offset <= 32,
            init.len() == 32,
            state@ == xor_at(init, bytes@.subrange(0, i as int), offset as int),
        decreases bytes@.len() - i,
    {
        proof {
            lemma_xor_at_len(init, bytes@.subrange(0, i as int), offset as int);
            assert(bytes@.subrange(0, i + 1).drop_last() =~= bytes@.subrange(0, i as int));
        }
        let slot = (i % 32 + offset) % 32;
        assert(slot == (i + offset) % 32);
        state[slot] = state[slot] ^ bytes[i];
        i = i + 1;
    }
    assert(bytes@.subrange(0, bytes@.len() as int) =~= bytes@);
}

/// XORs `other` into `state` slot by slot.
pub fn xor_each_into(state: &mut [u8; 32], other: &[u8; 32])
    ensures
        final(state)@ == xor_each(old(state)@, other@),
{
    let mut i: usize = 0;
    while i < 32
        invariant
            i <= 32,
            forall|j: int| 0 <= j < i ==> state@[j] == old(state)@[j] ^ other@[j],
            forall|j: int| i <= j < 32 ==> state@[j] == old(state)@[j],
        decreases 32 - i,
    {
        state[i] = state[i] ^ other[i];
        i = i + 1;
    }
    assert(state@ =~= xor_each(old(state)@, other@));
}

} // verus!
