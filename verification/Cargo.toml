[package]
name = "otterwatch-mqtt"
version = "0.1.0"
edition = "2021"
publish = false

[dependencies]
sha2 = "0.10"
hex = "0.4"
hostname = "0.4"
dashmap = "6"
serde = { version = "1", features = ["derive"] }
serde_json = "1"
base64 = "0.22"
toml = "0.8"
anyhow = "1"
tokio = { version = "1", features = ["full"] }
axum = "0.7"
tower-http = { version = "0.5", features = ["cors"] }
tracing = "0.1"
tracing-subscriber = { version = "0.3", features = ["env-filter"] }
prometheus = { version = "0.13", default-features = false }
rumqttd = { version = "0.19", default-features = false }
config = { version = "0.14", default-features = false, features = ["toml"] }
