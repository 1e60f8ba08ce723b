[package]
name = "conn_manager"
version = "0.1.0"
edition = "2021"
publish = false

[dependencies]
serde_json = "1"
tokio = { version = "1", features = ["rt", "sync"] }
axum = { version = "*", features = ["ws"] }
futures-util = { version = "0.3", features = ["sink"] }
