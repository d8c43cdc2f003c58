[package]
name = "bindkey"
version = "0.1.0"
edition = "2021"
publish = false

[dependencies]
aes-gcm = "0.10"
aes = "0.8"
hmac = "0.12"
sha2 = "0.10"
