[package]
name = "pubsub_hub"
version = "0.1.0"
edition = "2021"
publish = false

[dependencies]
axum = "*"
futures-util = "*"
serde = { version = "*", features = ["derive"] }
tokio = { version = "*", features = ["macros", "rt-multi-thread", "net", "sync", "time"] }
tokio-stream = { version = "*", features = ["sync"] }
