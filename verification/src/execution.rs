//! Execution engine: gas metering and the execution context.

pub mod context;
pub mod gas;
