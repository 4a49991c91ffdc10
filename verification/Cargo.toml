[package]
name = "tumeto"
version = "0.1.0"
edition = "2021"
publish = false

[dependencies]
unicode-width = "0.2"
serde = { version = "1", features = ["derive"] }
serde_json = "1"
ratatui = "0.29"
tui-big-text = "0.7"
