[package]
name = "dialog-artifacts"
version = "0.1.0"
edition = "2021"
publish = false

[dependencies]
async-stream = "0.3"
async-trait = "0.1"
base58 = "0.2"
blake3 = { version = "1", features = ["pure"] }
csv-async = { version = "1", features = ["tokio"] }
futures-util = "0.3"
rand = "0.8"
serde = { version = "1", features = ["derive"] }
tokio = { version = "1", features = ["sync", "io-util", "macros", "rt"] }
