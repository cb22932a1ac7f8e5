[package]
name = "entsoe_rs"
version = "0.1.0"
edition = "2021"
publish = false

[dependencies]
xml-rs = "*"
jiff = "*"
pyo3 = "*"
