[package]
name = "fvm"
version = "0.1.0"
edition = "2021"
publish = false

[dependencies]
bigint = "*"
ethereum-types = { version = "*", features = ["rlp"] }
tiny-keccak = { version = "*", features = ["sha3"] }
rlp = "*"
rand = "*"
serde = { version = "*", features = ["derive"] }
serde_json = "*"
env_logger = "*"
log = "*"
