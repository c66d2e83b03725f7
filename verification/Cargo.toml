[package]
name = "den"
version = "0.1.0"
edition = "2021"
publish = false

[dependencies]
ulid = "=1.2.1"
chrono = "=0.4.45"
anyhow = "=1.0.104"
clap = { version = "=4.6.7", features = ["derive"] }
dirs = "=7.0.0"
fuzzy-matcher = "=0.3.7"
minijinja = "=2.24.0"
pulldown-cmark = "=0.13.6"
serde = { version = "=1.0.229", features = ["derive"] }
serde_json = "=1.0.154"
serde_yaml = "=0.9.34"
toml = "=1.1.8"
