[package]
name = "ptl"
version = "0.1.0"
edition = "2021"
publish = false

[dependencies]
anyhow = "1"
clap = { version = "4", features = ["derive"] }
cosmic-text = "*"
crossterm = "*"
dirs = "*"
env_logger = "*"
image = { version = "*", default-features = false, features = ["png", "jpeg"] }
log = "0.4"
ratatui = "*"
rusb = "*"
serde = { version = "1", features = ["derive"] }
serde_json = "1"
thiserror = "*"
toml = "*"
