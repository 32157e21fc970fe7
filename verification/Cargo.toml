[package]
name = "pycrockford_rs"
version = "0.1.0"
edition = "2021"
publish = false

[dependencies]
data-encoding = "2"
once_cell = "1"
pyo3 = "0.18"
uuid = { version = "1", features = ["v4", "v7"] }
