[package]
name = "sorosusu_contracts"
version = "0.1.0"
edition = "2021"
publish = false

[dependencies]
soroban-sdk = "=29.0.1"
p256 = { version = "=0.13.2", features = ["ecdsa"] }

[dev-dependencies]
soroban-sdk = { version = "=29.0.1", features = ["testutils"] }
