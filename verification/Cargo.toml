[package]
name = "gruth"
version = "0.6.0"
edition = "2021"
publish = false

[dependencies]
anyhow = "1"
chrono = "0.4"
clap = { version = "4", features = ["derive"] }
crossterm = "0.28"
dirs = "5"
flate2 = "1"
git2 = { version = "0.19", default-features = false }
glob = "0.3"
notify-rust = "4"
ratatui = "0.29"
serde = { version = "1", features = ["derive"] }
serde_json = "1"
tokio = { version = "1", features = ["full"] }
toml = "0.8"
ureq = { version = "2", features = ["json"] }
