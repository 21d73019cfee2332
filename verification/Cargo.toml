[package]
name = "gallang"
version = "0.1.0"
edition = "2021"
publish = false

[dependencies]
colored = "*"
pyo3 = "0.22"
