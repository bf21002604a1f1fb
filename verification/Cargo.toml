[package]
name = "glean"
version = "0.1.0"
edition = "2021"
publish = false

[dependencies]
crossbeam-channel = "=0.5.17"
once_cell = "=1.21.4"

[dev-dependencies]
tempfile = "=3.27.0"
env_logger = "=0.11.11"
