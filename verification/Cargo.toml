[package]
name = "pzip"
version = "0.1.0"
edition = "2021"
publish = false

[dependencies]
bit-vec = "0.6"
byteorder = "1"
clap = "2.33"
