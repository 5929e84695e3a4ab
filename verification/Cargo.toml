[package]
name = "pcopy"
version = "0.1.0"
edition = "2021"
publish = false

[dependencies]
anyhow = "*"
clap = { version = "*", features = ["derive"] }
crossterm = "*"
filetime = "*"
parking_lot = "*"
ratatui = "*"
tokio = { version = "*", features = ["full"] }
walkdir = "*"
