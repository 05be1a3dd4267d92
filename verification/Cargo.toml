[package]
name = "claude_tmux"
version = "0.1.0"
edition = "2021"
publish = false

[dependencies]
dirs = "*"
libc = "0.2"
rusqlite = { version = "*", features = ["bundled"] }
