[package]
name = "notification_hub"
version = "0.1.0"
edition = "2021"
publish = false

[dependencies]
tokio = { version = "1", features = ["sync", "rt", "rt-multi-thread", "net", "io-util", "time", "fs", "macros", "signal"] }
uuid = { version = "1", features = ["v4"] }
log = "0.4"
env_logger = "0.11"
rand = "0.8"
async-trait = "0.1"
futures-util = "0.3"
futures-channel = "0.3"
tokio-tungstenite = "0.21"
tokio-serial = "5"
serialport = "4"
tokio-stream = "0.1"
