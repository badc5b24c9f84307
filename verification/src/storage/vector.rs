//! Vector storage: configuration, Merkle commitments over segments,
//! binary quantization, write-ahead-log records, snapshots and recovery.

pub mod config;
pub mod merkle;
pub mod mmap;
pub mod mvcc;
pub mod quantization;
pub mod segment;
pub mod snapshot;
pub mod wal;
pub mod wal_logger;
pub mod wal_recovery;
