[package]
name = "couchestor"
version = "0.1.0"
edition = "2021"
publish = false

[dependencies]
lz4 = "1"
serde = { version = "1", features = ["derive"] }
serde_json = "1"
