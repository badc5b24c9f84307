//! Events for cache invalidation, the publisher interface, and the framing
//! of the pub/sub write-ahead log.

pub mod event_bus;
pub mod traits;
pub mod wal_pubsub;

use vstd::prelude::*;
use crate::codec::{le64, push_le64};
use crate::digest::{sha256, sha256_digest};

verus! {

/// The table-modification event ID for a clock reading of `millis`
/// milliseconds after the Unix epoch: the SHA-256 digest of the reading's
/// sixteen little-endian bytes.
pub fn event_id_for_millis(millis: u128) -> (r: [u8; 32])
    ensures
        r@ == sha256(le64(millis as u64) + le64((millis >> 64) as u64)),
{
    let mut data: Vec<u8> = Vec::new();
    push_le64(&mut data, millis as u64);
    push_le64(&mut data, (millis >> 64) as u64);
    sha256_digest(data.as_slice())
}

} // verus!
