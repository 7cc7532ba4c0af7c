[package]
name = "devcap"
version = "0.1.0"
edition = "2021"
publish = false

[dependencies]
anyhow = "*"
arboard = "*"
chrono = "*"
clap = { version = "*", features = ["derive"] }
colored = "*"
dialoguer = { version = "*", features = ["fuzzy-select"] }
indicatif = "*"
rayon = "*"
serde = { version = "*", features = ["derive"] }
serde_json = "*"
toml = "*"
walkdir = "*"
