//! Zero-knowledge program management: Cairo programs and their registry.

pub mod cairo;
