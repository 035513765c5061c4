[package]
name = "djay_audio_loader"
version = "0.1.0"
edition = "2021"
publish = false

[dependencies]
anyhow = "1"
chrono = "0.4"
clap = { version = "4", features = ["derive"] }
env_logger = "*"
log = "0.4"
serde = { version = "1", features = ["derive"] }
serde_json = "1"
core-foundation = "*"
core-graphics = "*"
objc2 = "*"
objc2-app-kit = "*"
objc2-foundation = "*"
