[package]
name = "easy_wal"
version = "0.1.0"
edition = "2021"
publish = false

[dependencies]
crc32fast = "1"
tokio = { version = "1", features = ["fs", "io-util", "sync", "rt", "time", "macros"] }
async-trait = "0.1"
