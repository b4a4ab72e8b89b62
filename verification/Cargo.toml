[package]
name = "port_scanner"
version = "0.1.0"
edition = "2021"
publish = false

[dependencies]
cidr = "0.2"
async-std = { version = "1", features = ["attributes"] }
clap = "2"
env_logger = "*"
log = "0.4"
signal-hook = "0.3"
signal-hook-async-std = "0.2"
