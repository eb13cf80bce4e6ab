[package]
name = "line_capture"
version = "0.1.0"
edition = "2021"
publish = false

[dependencies]
anyhow = "*"
chrono = "*"
clap = { version = "*", features = ["derive"] }
serialport = { version = "*", default-features = false }
tungstenite = "*"
