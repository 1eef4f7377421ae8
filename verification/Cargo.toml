[package]
name = "alx"
version = "0.1.0"
edition = "2021"
publish = false

[dependencies]
chrono = { version = "*", features = ["serde"] }
clap = { version = "*", features = ["derive"] }
comfy-table = "*"
dialoguer = "*"
dirs = "*"
serde = { version = "*", features = ["derive"] }
serde_json = "*"
thiserror = "*"
toml = "*"
