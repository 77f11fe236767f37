[package]
name = "btc_node"
version = "0.1.0"
edition = "2021"
publish = false

[dependencies]
bitcoin_hashes = "0.12"
secp256k1 = { version = "0.27", features = ["bitcoin-hashes", "global-context", "rand-std"] }
bs58 = "0.5"
chrono = "0.4"
rand = "0.8"
glib = "0.17"
gtk = "0.17"
