[package]
name = "blockchain"
version = "0.1.0"
edition = "2021"
publish = false

[dependencies]
bincode = "1.3"
bitcoincash-addr = "0.5"
clap = "3.2"
env_logger = "0.9"
failure = "0.1"
log = "0.4"
merkle-cbt = "0.3"
rand_core = { version = "0.6", features = ["getrandom"] }
rust-crypto = "0.2"
serde = { version = "1", features = ["derive"] }
sled = "0.34"
