[package]
name = "pwsafe"
version = "0.1.0"
edition = "2021"
publish = false

[dependencies]
block-modes = "=0.8.1"
hmac = "=0.11.0"
rand = "=0.8.8"
sha2 = "=0.9.9"
twofish = "=0.6.0"
