[package]
name = "buldr"
version = "0.1.0"
edition = "2021"
publish = false

[dependencies]
clap = "*"
indicatif = "*"
serde = { version = "*", features = ["derive"] }
serde_json = "*"
termion = "*"
toml = "*"
walkdir = "*"
