[package]
name = "solana_tokens"
version = "0.1.0"
edition = "2021"
publish = false

[dependencies]
pickledb = { version = "=0.5.1", features = ["yaml"] }
indexmap = "=2.14.2"
solana-sdk = "=1.14.29"
serde = { version = "=1.0.229", features = ["derive"] }
csv = "=1.4.0"

[dev-dependencies]
tempfile = "*"
bincode = "=1.3.3"
