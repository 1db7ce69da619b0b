[package]
name = "consensus_bft"
version = "0.1.0"
edition = "2021"
publish = false

[dependencies]
bft-core = { version = "=0.1.0", features = ["async_verify"] }
crossbeam-channel = "=0.5.17"
crossbeam-utils = "=0.8.23"
log = "=0.4.35"
lru-cache = "=0.1.2"
rlp = "=0.6.1"
serde = { version = "=1.0.229", features = ["derive"] }
serde_json = "=1.0.154"
