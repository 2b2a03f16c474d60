[package]
name = "countdown"
version = "0.1.0"
edition = "2021"
publish = false

[dependencies]
rand = "0.8"
clap = { version = "3", features = ["derive"] }
dirs = "*"
serde = { version = "1", features = ["derive"] }
toml = "*"
