[package]
name = "antsi"
version = "0.1.0"
edition = "2021"
publish = false

[dependencies]
indexmap = "=2.14.2"
pyo3 = "=0.21.2"
text-size = "=1.1.1"
