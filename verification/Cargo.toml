[package]
name = "gomoku_lib"
version = "0.1.0"
edition = "2021"
publish = false

[dependencies]
chrono = "0.4"
futures-util = "0.3"
serde = { version = "1", features = ["derive"] }
serde_json = "1"
tokio = { version = "1", features = ["sync", "rt-multi-thread", "net", "macros", "time"] }
tokio-tungstenite = "*"
uuid = { version = "1", features = ["v4"] }
