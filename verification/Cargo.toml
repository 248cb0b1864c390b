[package]
name = "mitre"
version = "0.1.0"
edition = "2021"
publish = false

[dependencies]
yaml-rust = "0.4"
clap = "3.2"
log = "0.4"
pretty_env_logger = "*"
prettytable-rs = "*"
