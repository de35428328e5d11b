[package]
name = "watchdiff"
version = "0.1.0"
edition = "2021"
publish = false

[dependencies]
clap = { version = "*", features = ["derive"] }
console = "*"
crossterm = "*"
notify = "*"
ratatui = "*"
tempfile = "*"
