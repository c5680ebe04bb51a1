[package]
name = "kinto_integrity"
version = "0.1.0"
edition = "2021"
publish = false

[dependencies]
base64 = "0.13"
hex = "0.4"
serde = { version = "1", features = ["derive"] }
rkv = "*"
