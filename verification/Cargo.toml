[package]
name = "weasel_vision"
version = "0.1.0"
edition = "2021"
publish = false

[dependencies]
regex = "1"
serde = { version = "1", features = ["derive"] }
serde_json = "1"
serde_yaml = "0.9"
chrono = "0.4"
uuid = { version = "1", features = ["v4"] }
dirs = "*"
parking_lot = "0.12"
anyhow = "1"
thiserror = "*"
tokio = { version = "1", features = ["rt", "time"] }
