[package]
name = "fastdl"
version = "0.1.0"
edition = "2021"
publish = false

[dependencies]
arc-swap = "1"
axum = "0.8"
bzip2 = "0.5"
flate2 = "1"
ipnet = "2"
mime_guess = "2"
notify = "8"
percent-encoding = "2"
regex = "1"
serde = { version = "1", features = ["derive"] }
serde_yaml = "0.9"
tokio = { version = "1", features = ["full"] }
tokio-util = { version = "0.7", features = ["io"] }
tracing = "0.1"
tracing-subscriber = "0.3"
