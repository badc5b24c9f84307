[package]
name = "stoolap"
version = "0.1.0"
edition = "2021"
publish = false

[dependencies]
sha2 = "0.10"
blake3 = "1"
serde = { version = "1", features = ["derive"] }
serde_json = "1"
parking_lot = "0.12"
tempfile = "3"
which = "*"
memmap2 = "0.9"
