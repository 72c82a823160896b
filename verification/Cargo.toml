[package]
name = "cymbiont"
version = "0.1.0"
edition = "2021"
publish = false

[dependencies]
sled = "0.34"
chrono = "0.4"
uuid = { version = "1", features = ["v4"] }
serde = { version = "1", features = ["derive"] }
serde_json = "1"
serde_yaml = "*"
tokio = { version = "1", features = ["full"] }
axum = { version = "*", features = ["ws"] }
futures-util = "0.3"
anyhow = "1"
thiserror = "*"
tracing = "0.1"
tracing-subscriber = "0.3"

[dev-dependencies]
tempfile = "3"
