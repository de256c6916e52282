[package]
name = "rebotarm_control_rt"
version = "0.1.0"
edition = "2021"
publish = false

[dependencies]
serde_yaml = "=0.9.34"
arc-swap = "=1.9.3"
libc = "=0.2.191"
libloading = "=0.8.9"
pyo3 = "=0.23.5"
numpy = "=0.23.0"
