[package]
name = "pickle_rs"
version = "0.1.0"
edition = "2021"
publish = false

[dependencies]
byteorder = "1"
num-bigint = "0.4"
num-traits = "0.2"
