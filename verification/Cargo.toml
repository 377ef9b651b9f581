[package]
name = "log_highlight"
version = "0.1.0"
edition = "2021"
publish = false

[dependencies]
color-eyre = "*"
ratatui = "*"
tokio = { version = "*", default-features = false, features = ["sync"] }
