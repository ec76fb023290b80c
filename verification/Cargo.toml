[package]
name = "qf_codec"
version = "0.1.0"
edition = "2021"
publish = false

[dependencies]
colored = "2"
regex = "1"
rust-crypto = "0.2"
structopt = "0.3"
