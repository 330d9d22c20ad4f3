[package]
name = "tzlint"
version = "0.1.0"
edition = "2021"
publish = false

[dependencies]
regex-lite = "0.1"
serde = { version = "1", features = ["derive"] }
serde_json = "1"
rmp-serde = "1"
extism-pdk = "1"
globset = "0.4"
walkdir = "2"
