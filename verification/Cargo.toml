[package]
name = "clippiboy"
version = "0.1.0"
edition = "2021"
publish = false

[dependencies]
uuid = { version = "=1.29.0", features = ["v4"] }
getrandom = "=0.4.3"
serde = { version = "=1.0.229", features = ["derive"] }
serde_json = "=1.0.154"
dirs = "=5.0.1"
log = "=0.4.35"
env_logger = "=0.11.11"
parking_lot = "=0.12.5"
tiny_http = "=0.12.0"
