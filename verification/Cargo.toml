[package]
name = "dbdqueue"
version = "0.9.0"
edition = "2021"
publish = false

[dependencies]
chrono = "0.4"
clap = { version = "4", features = ["derive"] }
crossterm = "0.28"
ratatui = "0.29"
serde = { version = "1", features = ["derive"] }
serde_json = "1"
sys-locale = "0.3"
toml = "0.8"
ureq = "2"
