[package]
name = "csidh"
version = "0.1.0"
edition = "2021"
publish = false

[dependencies]
crypto-bigint = { version = "0.6", features = ["alloc", "rand_core"] }
oorandom = "11"

[dev-dependencies]
rand = "0.8"
