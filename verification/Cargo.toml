[package]
name = "dji_log_cli"
version = "0.1.0"
edition = "2021"
publish = false

[dependencies]
dji-log-parser = "*"
clap = { version = "4", features = ["derive"] }
serde_json = "1"
