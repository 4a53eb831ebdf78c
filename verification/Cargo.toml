[package]
name = "fasder"
version = "0.1.0"
edition = "2021"
publish = false

[dependencies]
der = { version = "0.7", features = ["oid", "std"] }
itertools = "0.12"
num-bigint = "0.4"
pyo3 = { version = "0.21", features = ["num-bigint"] }
