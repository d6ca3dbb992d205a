[package]
name = "sleepview"
version = "2.0.3"
edition = "2021"
publish = false

[dependencies]
clap = { version = "=4.6.7", features = ["derive"] }
crossterm = "=0.27.0"
log = "=0.4.35"
env_logger = "=0.10.2"
