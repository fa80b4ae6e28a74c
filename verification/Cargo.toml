[package]
name = "solana_arb_executor"
version = "0.1.0"
edition = "2021"
publish = false

[dependencies]
anyhow = "=1.0.104"
base64 = "=0.22.1"
bincode = "=1.3.3"
bs58 = "=0.5.1"
futures = "=0.3.34"
serde_json = "=1.0.154"
solana-sdk = { version = "=4.0.1", default-features = false, features = ["full"] }
solana-system-interface = { version = "=3.3.0", features = ["bincode"] }
tokio = { version = "=1.54.1", features = ["full"] }
yellowstone-grpc-client = { version = "=13.1.1", default-features = false }
yellowstone-grpc-proto = { version = "=12.5.0", default-features = false }
