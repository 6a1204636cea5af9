[package]
name = "gcm_mode"
version = "0.1.0"
edition = "2021"
publish = false

[dependencies]
aes = "0.7"
