//! Errors shared by the execution and storage layers.

use vstd::prelude::*;

verus! {

/// Errors raised by gas metering, state updates and storage framing.
#[derive(Debug, Clone, PartialEq, Eq)]
pub enum Error {
    /// Charging would push the gas used past the limit.
    OutOfGas { used: u64, limit: u64 },
    /// Charging would overflow the 64-bit gas counter.
    GasOverflow,
    /// The named table does not exist.
    TableNotFound(String),
    /// Malformed bytes or text.
    Parse(String),
    /// A segment has no room left.
    SegmentFull(u64),
    /// A segment no longer accepts inserts.
    SegmentImmutable(u64),
    /// An embedding has the wrong number of components.
    InvalidVectorDimension { expected: usize, got: usize },
    /// An index is past the number of stored entries.
    IndexOutOfBounds(usize, usize),
    /// No segment accepts inserts.
    NoActiveSegment,
    /// The vector or segment is not known.
    SegmentNotFound,
}

/// Result type of the execution and storage layers.
pub type Result<T> = core::result::Result<T, Error>;

} // verus!
