[package]
name = "cargo_warm"
version = "0.3.0"
edition = "2021"
publish = false

[dependencies]
anyhow = "1"
clap = { version = "4", features = ["derive"] }
filetime = "0.2"
serde = { version = "1", features = ["derive"] }
serde_json = "1"
toml = "0.8"
