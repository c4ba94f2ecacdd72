[package]
name = "logq"
version = "0.1.0"
edition = "2021"
publish = false

[dependencies]
serde_json = "1"
regex = "1"
unicode-width = "*"
unicode-truncate = "*"
base64 = "*"
chrono = "*"
ratatui = "*"
crossterm = "*"
tui-input = "*"
tokio = { version = "1", features = ["full"] }
clap = { version = "4", features = ["derive"] }
libc = "*"
