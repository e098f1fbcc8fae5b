[package]
name = "clique"
version = "0.1.0"
edition = "2021"
publish = false

[dependencies]
ethereum-types = "=0.16.0"
keccak-hash = "=0.12.0"
parity-bytes = "=0.1.2"
parking_lot = "=0.13.0"
rlp = "=0.6.1"
secp256k1 = { version = "=0.33.1", features = ["recovery"] }
