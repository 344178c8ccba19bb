[package]
name = "aes67_to_ws"
version = "0.1.0"
edition = "2021"
publish = false

[dependencies]
anyhow = "1"
env_logger = "*"
futures-util = "0.3"
log = "0.4"
poem = { version = "*", features = ["websocket"] }
regex = "1"
rtp-rs = "*"
serde = { version = "1", features = ["derive"] }
serde_json = "1"
socket2 = "*"
tokio = { version = "1", features = ["full"] }
