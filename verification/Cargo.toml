[package]
name = "tmux-agent-sidebar"
version = "0.1.0"
edition = "2021"
publish = false

[dependencies]
indexmap = "2"
libc = "0.2"
ratatui = "0.29"
serde = { version = "1", features = ["derive"] }
serde_json = "1"
tempfile = "3"
unicode-width = "0.2"
