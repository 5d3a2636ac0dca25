[package]
name = "raffi"
version = "0.1.0"
edition = "2021"
publish = false

[dependencies]
anyhow = "*"
gumdrop = "*"
serde = { version = "*", features = ["derive"] }
serde_json = "*"
serde_yaml = "*"
walkdir = "*"
