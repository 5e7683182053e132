[package]
name = "ethtool"
version = "0.1.0"
edition = "2021"
publish = false

[dependencies]
hex = "0.4"
num-bigint = "0.4"
clap = "2"
rand = "0.4"
rust-crypto = "0.2"
rust_decimal = "1"
secp256k1 = { version = "0.12", features = ["rand"] }
