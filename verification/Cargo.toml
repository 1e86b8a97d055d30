[package]
name = "voicetype"
version = "0.1.0"
edition = "2021"
publish = false

[dependencies]
anyhow = "1"
cpal = "0.15"
flate2 = "1"
futures-util = { version = "0.3", features = ["sink"] }
serde_json = "1"
tokio = { version = "1", features = ["macros", "net", "rt", "sync", "time"] }
tokio-tungstenite = { version = "0.27", features = ["rustls-tls-webpki-roots"] }
uuid = { version = "1", features = ["v4"] }
