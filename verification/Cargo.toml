[package]
name = "rpm_version"
version = "0.4.0"
edition = "2021"
publish = false

[dependencies]
pyo3 = "*"
