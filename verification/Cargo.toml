[package]
name = "faster_cp"
version = "0.1.0"
edition = "2021"
publish = false

[dependencies]
petgraph = "0.7"
rand = "0.9"
special = "*"
pyo3 = "0.23"
