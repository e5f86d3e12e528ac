[package]
name = "bitvm_bridge"
version = "0.1.0"
edition = "2021"
publish = false

[dependencies]
bitcoin = { version = "0.31", features = ["rand-std"] }
secp256k1 = { version = "0.28", features = ["rand-std", "recovery"] }
sha2 = "0.10"
sha3 = "0.10"
hex = "0.4"
crypto-bigint = "0.5"
bitcoincore-rpc = "0.18"
