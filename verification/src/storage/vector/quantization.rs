//! Compact encodings of embeddings and distances between them.

pub mod config;
pub mod distance;
pub mod quantizer;
