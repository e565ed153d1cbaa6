[package]
name = "chain_harness"
version = "0.1.0"
edition = "2021"
publish = false

[dependencies]
serde = { version = "*", features = ["derive"] }
serde_json = "*"
dotenv = "*"
ckb-types = "*"
ckb-jsonrpc-types = "*"
ckb-sdk = "*"
