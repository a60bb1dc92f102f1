[package]
name = "warp_ipfs"
version = "0.1.0"
edition = "2021"
publish = false

[dependencies]
bs58 = "0.5"
serde = { version = "1", features = ["derive"] }
serde_json = "1"
uuid = { version = "1", features = ["v4", "serde"] }
chrono = { version = "0.4", features = ["serde"] }
indexmap = { version = "2", features = ["serde"] }
