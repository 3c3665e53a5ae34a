[package]
name = "biotag"
version = "0.1.0"
edition = "2021"
publish = false

[dependencies]
aho-corasick = "*"
clap = "*"
colored = "*"
env_logger = "*"
glob = "*"
log = "*"
