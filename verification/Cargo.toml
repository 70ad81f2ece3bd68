[package]
name = "sentinel"
version = "0.1.0"
edition = "2021"
publish = false

[dependencies]
bytes = "1"
serde = { version = "1", features = ["derive"] }
serde_json = "1"
thiserror = "1"
tokio-util = "0.7"

[dev-dependencies]
tempfile = "3"
