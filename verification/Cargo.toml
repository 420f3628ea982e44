[package]
name = "keytone"
version = "0.1.0"
edition = "2021"
publish = false

[dependencies]
tokio = { version = "1", default-features = false, features = ["sync", "rt", "macros"] }
input-linux = "*"
rodio = { version = "0.17", default-features = false }
