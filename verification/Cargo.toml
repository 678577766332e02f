[package]
name = "hyperpuzzle"
version = "0.1.0"
edition = "2021"
publish = false

[dependencies]
ahash = "=0.8.12"
anyhow = "=1.0.104"
cgmath = "=0.18.0"
colorous = { version = "=1.0.16", default-features = false }
eyre = "=0.6.14"
indexmap = "=2.14.2"
itertools = "=0.15.0"
parking_lot = "=0.13.0"
serde = { version = "=1.0.229", features = ["derive"] }
smallvec = "=1.16.4"
tinyset = "=0.5.4"
