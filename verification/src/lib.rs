//! Stoolap blockchain-state library: consensus operations and blocks, gas
//! metering, schema tries, Cairo program registry, pub/sub event framing and
//! vector-storage bookkeeping, with their contracts proved by Verus.

pub mod codec;
pub mod consensus;
pub mod digest;
pub mod error;
pub mod keyorder;
pub mod mix;
pub mod text;
pub mod trie;
pub mod types;
pub mod xorfold;
pub mod zk;
pub mod execution;
pub mod pubsub;
pub mod storage;
pub mod sync_adapter;
pub mod vector_text;
