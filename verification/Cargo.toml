[package]
name = "confidential_transfer"
version = "0.1.0"
edition = "2021"
publish = false

[dependencies]
secp256k1 = { version = "=0.28.2", features = ["rand-std", "hashes-std"] }
rand = "=0.8.8"
sha2 = "=0.10.9"
serde = { version = "=1.0.229", features = ["derive"] }
serde_json = "=1.0.154"
tokio = { version = "=1.54.1", features = ["net", "io-util", "rt", "rt-multi-thread"] }
