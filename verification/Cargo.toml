[package]
name = "mooncake"
version = "0.1.0"
edition = "2021"
publish = false

[dependencies]
near-contract-standards = "4"
near-crypto = "0.23"
near-sdk = { version = "4", default-features = false }
