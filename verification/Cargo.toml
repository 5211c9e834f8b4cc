[package]
name = "ktrace"
version = "0.1.0"
edition = "2021"
publish = false

[dependencies]
byteorder = "*"
clap = { version = "*", features = ["derive"] }
env_logger = "*"
log = "*"
tempfile = "*"
