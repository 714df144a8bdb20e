[package]
name = "wavyte"
version = "0.3.0"
edition = "2021"
publish = false

[dependencies]
xxhash-rust = { version = "=0.8.19", features = ["xxh3"] }
serde = { version = "1", features = ["derive"] }
serde_json = "1"
