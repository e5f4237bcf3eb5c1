[package]
name = "git_monitor"
version = "0.1.0"
edition = "2021"
publish = false

[dependencies]
color-eyre = "*"
crossterm = { version = "*", features = ["event-stream"] }
devicons = "*"
futures = "*"
git2 = { version = "*", default-features = false }
notify = "*"
notify-debouncer-mini = "*"
ratatui = "*"
tokio = { version = "*", features = ["rt-multi-thread", "macros", "sync", "time"] }
