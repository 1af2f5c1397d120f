[package]
name = "yara_syntax"
version = "0.1.0"
edition = "2021"
publish = false

[dependencies]
indexmap = "2"
itertools = "0.13"
num-traits = "0.2"
rustc-hash = "2"
