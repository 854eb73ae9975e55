[package]
name = "classgroup"
version = "0.1.0"
edition = "2021"
publish = false

[dependencies]
num-bigint = "*"
num-traits = "*"
sha2 = "*"
blake2 = "*"
