[package]
name = "taskwarrior-tui"
version = "0.1.0"
edition = "2021"
publish = false

[dependencies]
anyhow = "*"
chrono = "*"
dirs = "*"
env_logger = "*"
log = "*"
ratatui = "*"
rustyline = "*"
serde = { version = "*", features = ["derive"] }
serde_json = "*"
shlex = "*"
task-hookrs = "*"
unicode-truncate = "*"
uuid = "*"
versions = "*"
