[package]
name = "rtoml"
version = "0.12.0"
edition = "2021"
publish = false

[dependencies]
toml = { version = "0.5", features = ["preserve_order"] }
pyo3 = "0.23"
