[package]
name = "musicum"
version = "0.1.0"
edition = "2021"
publish = false

[dependencies]
sha2 = "=0.11.1"
hex = "=0.4.3"
slug = "=0.1.6"
uuid = { version = "=1.29.0", features = ["v4"] }
serde = { version = "=1.0.229", features = ["derive"] }
serde_json = "=1.0.154"
clap = { version = "=4.6.7", features = ["derive"] }
clap_complete = "=4.6.11"
anyhow = "=1.0.104"
toml = "=1.1.8"
crossterm = "=0.29.0"
walkdir = "=2.5.0"
chrono = "=0.4.45"
ratatui = "=0.30.2"
