[package]
name = "activity_report"
version = "0.1.0"
edition = "2021"
publish = false

[dependencies]
base64 = "0.22"
charming = { version = "*", features = ["ssr"] }
chrono = "0.4"
chrono-tz = "*"
clap = { version = "4", features = ["derive"] }
clap-stdin = "*"
csv = "1"
