[package]
name = "chained_bft"
version = "0.1.0"
edition = "2021"
publish = false

[dependencies]
ed25519-dalek = "2"
tiny-keccak = { version = "2", features = ["sha3"] }
num_cpus = "1"
lazy_static = "1"
failure = "0.1"
