[package]
name = "sexy_claude"
version = "0.1.0"
edition = "2021"
publish = false

[dependencies]
serde_json = "1"
unicode-width = "0.2"
fuzzy-matcher = "0.3"
anyhow = "1"
clap = { version = "4", features = ["derive"] }
crossterm = "0.28"
dirs = "5"
portable-pty = "0.8"
pulldown-cmark = "0.12"
ratatui = "0.29"
serde = { version = "1", features = ["derive"] }
syntect = { version = "5", default-features = false, features = ["default-fancy"] }
tokio = { version = "1", features = ["full"] }
toml = "0.8"
vt100 = "0.15"

[dev-dependencies]
tempfile = "3"
