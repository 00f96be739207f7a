[package]
name = "citadel_core"
version = "0.1.0"
edition = "2021"
publish = false

[dependencies]
amplify = "=3.14.2"
bitcoin = "=0.29.2"
bitcoin_scripts = "=0.10.0"
secp256k1 = { version = "=0.24.3", features = ["global-context"] }
miniscript = "=9.2.1"
descriptor-wallet = { version = "=0.10.2", features = ["sign"] }
electrum-client = "=0.12.1"
strict_encoding = "=0.9.0"
