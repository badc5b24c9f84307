//! Consensus: the operations recorded in the blockchain's operation log and
//! the blocks that carry them.

pub mod block;
pub mod operation;
