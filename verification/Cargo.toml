[package]
name = "did_reputation"
version = "0.1.0"
edition = "2021"
publish = false

[dependencies]
aes = "0.6"
base64 = "0.13"
block-modes = "0.7"
rand = "0.8"
uuid = { version = "0.8", features = ["v4"] }
