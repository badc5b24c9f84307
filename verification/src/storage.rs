//! Storage layers.

pub mod vector;
