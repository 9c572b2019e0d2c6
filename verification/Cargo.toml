[package]
name = "fzftask"
version = "0.1.0"
edition = "2021"
publish = false

[dependencies]
indexmap = { version = "=2.14.2", features = ["serde"] }
serde = { version = "=1.0.229", features = ["derive"] }
serde_yaml_ng = "=0.10.0"
ratatui = "=0.29.0"
crossterm = "=0.28.1"
