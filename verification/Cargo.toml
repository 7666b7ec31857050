[package]
name = "herobot"
version = "0.1.0"
edition = "2021"
publish = false

[dependencies]
chrono = "*"
dirs = "*"
notify = "4"
telegram-bot = "*"
tokio = { version = "1", features = ["full"] }
futures = "*"
