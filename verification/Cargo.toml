[package]
name = "websocket_bridge"
version = "0.1.0"
edition = "2021"
publish = false

[dependencies]
clap = "2.33"
env_logger = "0.9"
futures-util = "0.3"
log = "0.4"
native-tls = "0.2"
r2d2 = "0.8"
tokio = { version = "1", features = ["full"] }
tokio-tungstenite = { version = "0.17", features = ["native-tls"] }
warp = { version = "0.3", default-features = false }
