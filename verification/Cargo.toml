[package]
name = "robot_asm"
version = "0.1.0"
edition = "2021"
publish = false

[dependencies]
cookie = { version = "*", features = ["private"] }
env_logger = "*"
futures-channel = "*"
futures-util = "*"
hex = "*"
http = "*"
log = "*"
rand_core = { version = "0.6", features = ["getrandom"] }
serde = { version = "1", features = ["derive"] }
serde_json = "1"
tokio = { version = "1", features = ["rt-multi-thread", "net", "macros"] }
tokio-tungstenite = "*"
toml = "*"
