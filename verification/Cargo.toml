[package]
name = "wsrouter"
version = "0.1.0"
edition = "2021"
publish = false

[dependencies]
tokio = { version = "1", features = ["sync", "rt-multi-thread", "net", "time", "macros"] }
tokio-tungstenite = "*"
futures-util = "0.3"
uuid = { version = "1", features = ["v4"] }
