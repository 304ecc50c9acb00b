[package]
name = "mower_msg"
version = "0.1.0"
edition = "2021"
publish = false

[dependencies]
crc = "3"
serde = { version = "1", features = ["derive"] }
tracing = "0.1"
tracing-subscriber = "0.3"
