[package]
name = "lot"
version = "0.1.0"
edition = "2021"
publish = false

[dependencies]
rust-crypto = "0.2.36"
rustc-serialize = "0.3"
time = "0.1"
