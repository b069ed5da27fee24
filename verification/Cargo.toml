[package]
name = "rusty_todos"
version = "0.1.0"
edition = "2021"
publish = false

[dependencies]
chrono = { version = "0.4", default-features = false, features = ["std"] }
color-eyre = "0.6"
ratatui = "0.29"
tui-textarea = "0.7"
