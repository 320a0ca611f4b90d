[package]
name = "selector_miner"
version = "0.1.0"
edition = "2021"
publish = false

[dependencies]
itertools = "*"
sha3 = "*"
rayon = "*"
clap = { version = "*", features = ["derive"] }
env_logger = "*"
log = "*"
