[package]
name = "officium_rs"
version = "0.1.0"
edition = "2021"
publish = false

[dependencies]
brotli-decompressor = "*"
postcard = { version = "1", features = ["use-std"] }
serde = { version = "1", features = ["derive"] }
serde_json = "1"
