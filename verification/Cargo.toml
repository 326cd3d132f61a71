[package]
name = "validator_metrics"
version = "0.1.0"
edition = "2021"
publish = false

[dependencies]
cosmwasm-std = { version = "=0.16.7", features = ["staking"] }
cosmwasm-bignumber = "=2.2.0"
cw-storage-plus = "=0.9.2"
terra-cosmwasm = "=2.2.0"
schemars = "0.8"
serde = { version = "1.0", features = ["derive"] }
thiserror = "1.0"
