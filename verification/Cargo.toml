[package]
name = "mal"
version = "0.1.0"
edition = "2021"
publish = false

[dependencies]
env_logger = "*"
rustyline = "=19.0.0"
