[package]
name = "delay_queue"
version = "0.1.0"
edition = "2021"
publish = false

[dependencies]
uuid = { version = "1", features = ["v4"] }
tokio = { version = "1", features = ["rt", "sync", "time", "macros"] }

[dev-dependencies]
serde_json = "1"
