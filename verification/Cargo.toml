[package]
name = "jupyter_rtc_automerge"
version = "0.1.0"
edition = "2021"
publish = false

[dependencies]
automerge = "*"
pyo3 = "*"
