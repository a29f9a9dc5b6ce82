[package]
name = "roam"
version = "0.1.0"
edition = "2021"
publish = false

[dependencies]
base64 = "0.13"
rust-crypto = "0.2.36"
rand = "0.3"
serde = { version = "1", features = ["derive"] }
serde_json = "1"
clap = "2"
