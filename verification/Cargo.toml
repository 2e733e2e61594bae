[package]
name = "case_harness"
version = "0.1.0"
edition = "2021"
publish = false

[dependencies]
crossbeam = "0.8"
derive_more = "0.99"
num-traits = "0.2"
ordered-float = "*"
