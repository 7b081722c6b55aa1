[package]
name = "dreamscape"
version = "0.1.0"
edition = "2021"
publish = false

[dependencies]
rand = "*"
anyhow = "*"
clap = { version = "*", features = ["derive"] }
cpal = "*"
crossbeam-channel = "*"
crossterm = "*"
env_logger = "*"
fundsp = "*"
log = "*"
