[package]
name = "vmux"
version = "0.1.0"
edition = "2021"
publish = false

[dependencies]
crossterm = "0.28"
portable-pty = "0.8"
ratatui = "0.29"
serde = { version = "1", features = ["derive"] }
serde_json = "1"
vt100 = "0.15"
