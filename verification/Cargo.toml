[package]
name = "signaling"
version = "0.1.0"
edition = "2021"
publish = false

[dependencies]
actix = "*"
actix-cors = "*"
actix-web = "*"
actix-web-actors = "*"
env_logger = "*"
log = "*"
serde = { version = "*", features = ["derive"] }
serde_json = "*"
uuid = { version = "*", features = ["v4"] }
