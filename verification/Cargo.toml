[package]
name = "botnana"
version = "0.1.0"
edition = "2021"
publish = false

[dependencies]
env_logger = "*"
log = "0.4"
serde_json = "1"
tokio = { version = "1", features = ["rt", "time", "net"] }
tokio-modbus = { version = "0.5", default-features = false, features = ["tcp"] }
triple_buffer = "6"
url = "2"
ws = "0.9"
