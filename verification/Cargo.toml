[package]
name = "cade"
version = "0.1.0"
edition = "2021"
publish = false

[dependencies]
serde_yaml = "0.8"
clap = "2"
env_logger = "0.6"
log = "0.4"
chrono = "0.4"
human-panic = "1"
openssl-probe = "0.1"
