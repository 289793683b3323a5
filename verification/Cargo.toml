[package]
name = "quiet_tui"
version = "0.1.0"
edition = "2021"
publish = false

[dependencies]
crossterm = "=0.28.1"
ratatui = { version = "=0.29.0", features = ["unstable-rendered-line-info"] }
serde = { version = "1", features = ["derive"] }
serde_json = "=1.0.154"
shlex = "=1.3.0"
webbrowser = "=1.2.6"

[dev-dependencies]
rand = "=0.9.5"
