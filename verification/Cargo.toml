[package]
name = "observe_core"
version = "0.1.0"
edition = "2021"
publish = false

[dependencies]
regex = "*"
pyo3 = "*"
rayon = "*"
walkdir = "*"
serde = { version = "*", features = ["derive"] }
env_logger = "*"
