[package]
name = "donp"
version = "0.1.0"
edition = "2021"
publish = false

[dependencies]
byteorder = "1"
rand = "0.9"
serde_json = "1"
log = "0.4"
env_logger = "0.11"
chrono = "0.4"
