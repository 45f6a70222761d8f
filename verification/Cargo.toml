[package]
name = "aes_ecb_cipher"
version = "0.1.0"
edition = "2021"
publish = false

[dependencies]
aes = "0.8"
cipher = { version = "0.4", features = ["block-padding", "alloc"] }
ecb = "0.1"
rand = "0.8"
