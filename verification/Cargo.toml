[package]
name = "edison_note"
version = "0.1.0"
edition = "2021"
publish = false

[dependencies]
md5 = "=0.7.0"
uuid = { version = "=1.29.0", features = ["v4"] }
chrono = { version = "=0.4.45", features = ["serde"] }
serde = { version = "=1.0.229", features = ["derive"] }
serde_json = "=1.0.154"
tokio = { version = "=1.54.1", features = ["rt-multi-thread", "macros", "sync", "net", "time"] }
tokio-tungstenite = "=0.30.0"
futures-util = "=0.3.34"
anyhow = "=1.0.104"
log = "=0.4.34"
dirs = "*"
env_logger = "*"
