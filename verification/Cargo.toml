[package]
name = "quiz_server"
version = "0.1.0"
edition = "2021"
publish = false

[dependencies]
uuid = { version = "*", features = ["v4"] }
axum = { version = "*", features = ["ws", "multipart"] }
tokio = { version = "*", features = ["full"] }
serde = { version = "*", features = ["derive"] }
serde_json = "*"
tower-http = { version = "*", features = ["cors", "fs"] }
futures-util = "*"
once_cell = "*"
dashmap = "*"
tracing = "*"
tracing-subscriber = { version = "*", features = ["env-filter"] }
