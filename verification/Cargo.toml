[package]
name = "cx_switch"
version = "0.1.0"
edition = "2021"
publish = false

[dependencies]
anyhow = "1"
base64 = "0.22"
chrono = "0.4"
clap = { version = "4", features = ["derive"] }
crossterm = "0.27"
dirs = "5"
serde_json = "1"
tiny_http = "0.12"
