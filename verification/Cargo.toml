[package]
name = "blockchain"
version = "0.1.0"
edition = "2021"
publish = false

[dependencies]
rust-crypto = "0.2"
bitcoincash-addr = "0.5"
merkle-cbt = "*"
rand = "0.4"
sled = "0.34"
clap = "2.33"
env_logger = "0.7"
log = "0.4"
failure = "0.1"

[dev-dependencies]
bincode = "1.3"
serde = "1.0"
