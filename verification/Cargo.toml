[package]
name = "slip"
version = "0.1.0"
edition = "2021"
publish = false

[dependencies]
dirs = "6"
nucleo-matcher = "0.3"
percent-encoding = "2"
toml = "0.8"
serde = { version = "1", features = ["derive"] }
serde_json = "1"
notify = "8"
