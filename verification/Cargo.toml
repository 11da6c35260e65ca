[package]
name = "base64"
version = "0.1.0"
edition = "2021"
publish = false

[dev-dependencies]
rand = "*"
