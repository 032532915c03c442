[package]
name = "anglerfry"
version = "0.1.0"
edition = "2021"
publish = false

[dependencies]
cozy-chess = "0.3"
rand = "0.9"
log = "0.4"
env_logger = "0.11"
