[package]
name = "cryptorusticon"
version = "0.1.0"
edition = "2021"
publish = false

[dependencies]
num = { version = "0.4", features = ["rand"] }
num-prime = "0.4"
rand = "0.8"
