[package]
name = "mint_api"
version = "0.1.0"
edition = "2021"
publish = false

[dependencies]
bitcoin = { version = "=0.27.1", features = ["use-serde"] }
bitcoin_hashes = "=0.10.0"
musig = "=0.0.1"
serde = { version = "1", features = ["derive"] }
thiserror = "1"
anyhow = "1"
base64 = "0.21"
futures = "0.3"
lightning-invoice = "0.23"
rand = "0.8"
tokio = { version = "1", features = ["sync", "process"] }
tracing = "0.1"
