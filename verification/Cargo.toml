[package]
name = "cpython_json"
version = "0.3.0"
edition = "2021"
publish = false

[dependencies]
cpython = "*"
serde_json = "*"
