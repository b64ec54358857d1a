[package]
name = "enostr"
version = "0.1.0"
edition = "2021"
publish = false

[dependencies]
hex = "0.4"
serde = { version = "1", features = ["derive"] }
serde_json = "1"
ewebsock = "*"
nostrdb = "*"
tokio = { version = "1", features = ["sync", "rt"] }
tokio-tungstenite = "*"
futures-util = "*"
tracing = "0.1"
