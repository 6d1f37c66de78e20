[package]
name = "linekit"
version = "0.1.0"
edition = "2021"
publish = false

[dependencies]
regex-lite = "*"
encoding_rs_io = "*"
lexopt = "*"
