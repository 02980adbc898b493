[package]
name = "bot_msg"
version = "0.1.0"
edition = "2021"
publish = false

[dependencies]
chrono = "*"
ulid = "*"
tokio = { version = "*", features = ["full"] }
clap = { version = "*", features = ["derive"] }
