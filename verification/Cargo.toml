[package]
name = "staking_keeper"
version = "0.1.0"
edition = "2021"
publish = false

[dependencies]
anyhow = "*"
backoff = { version = "*", features = ["tokio"] }
chrono = "*"
futures = "*"
log = "*"
sha2 = "*"
solana-sdk = "*"
tokio = { version = "*", features = ["full"] }
yellowstone-grpc-proto = "*"
