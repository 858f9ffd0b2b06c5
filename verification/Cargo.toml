[package]
name = "ms2cc"
version = "0.1.0"
edition = "2021"
publish = false

[dependencies]
dashmap = "*"
clap = { version = "*", features = ["derive"] }
serde = { version = "*", features = ["derive"] }
serde_json = "*"
jwalk = "*"
crossbeam-channel = "*"

[dev-dependencies]
tempfile = "*"
