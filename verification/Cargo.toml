[package]
name = "tftp-rs"
version = "0.1.0"
edition = "2021"

[dependencies]
anyhow = "1"
axum = "0.7"
clap = { version = "4", features = ["derive"] }
crossterm = "0.28"
if-addrs = "0.13"
ratatui = "0.29"
socket2 = "0.5"
tokio = { version = "1", features = ["full"] }
tokio-util = { version = "0.7", features = ["io"] }
