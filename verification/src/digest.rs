//! The cryptographic hash functions that commitments are built from.

use vstd::prelude::*;
use sha2::Digest;

verus! {

/// SHA-256 digest of a byte string (as computed by the `sha2` crate).
pub uninterp spec fn sha256(data: Seq<u8>) -> Seq<u8>;

/// BLAKE3 digest of a byte string (as computed by the `blake3` crate).
pub uninterp spec fn blake3(data: Seq<u8>) -> Seq<u8>;

/// Calls `sha2::Sha256::digest`: the 32-byte SHA-256 digest of `data`.
/// Feeding a hasher several slices digests their concatenation, so the
/// callers concatenate first.
#[verifier::external_body]
pub(crate) fn sha256_digest(data: &[u8]) -> (r: [u8; 32])
    ensures
        r@ == sha256(data@),
{
    sha2::Sha256::digest(data).into()
}

/// Calls `blake3::hash`: the 32-byte BLAKE3 digest of `data`.
#[verifier::external_body]
pub(crate) fn blake3_digest(data: &[u8]) -> (r: [u8; 32])
    ensures
        r@ == blake3(data@),
{
    *blake3::hash(data).as_bytes()
}

} // verus!
