[package]
name = "p2p_signaling"
version = "0.1.0"
edition = "2021"
publish = false

[dependencies]
uuid = { version = "1", features = ["v4"] }
tungstenite = "*"

[dev-dependencies]
serde_json = "1"
