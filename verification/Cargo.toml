[package]
name = "blockchain_rust_demo"
version = "0.1.0"
edition = "2021"
publish = false

[dependencies]
bincode = "1.3"
bitcoincash-addr = "0.5"
clap = "4"
failure = "0.1"
log = "0.4"
rand = "0.8"
rust-crypto = "0.2"
serde = { version = "1.0", features = ["derive"] }
sled = "0.34"
