[package]
name = "blvm-sdk"
version = "0.1.0"
edition = "2021"
publish = false

[dependencies]
secp256k1 = "=0.28.2"
hmac = "=0.12.1"
sha2 = "=0.10.9"
ripemd = "=0.1.3"
serde = { version = "=1.0.228", features = ["derive"] }
serde_json = "=1.0.133"
toml = "=0.8.2"
thiserror = "=1.0.69"
anyhow = "=1.0.93"
tracing = "=0.1.41"
tokio = { version = "=1.48.0", features = ["rt-multi-thread", "macros", "sync", "time"] }
clap = { version = "=4.4.11", features = ["derive"] }
chrono = "=0.4.45"
blvm-node = { version = "=0.1.83", default-features = false, features = ["heed3", "redb", "nix", "libc", "production", "utxo-commitments", "protocol-verification", "dandelion", "sigop", "rest-api"] }

[dev-dependencies]
tempfile = "3"
