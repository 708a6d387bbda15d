[package]
name = "gateway_core"
version = "0.1.0"
edition = "2021"
publish = false

[dependencies]
uuid = { version = "*", features = ["v4"] }
anyhow = "*"
async-trait = "*"
axum = "*"
bytes = "*"
dashmap = "*"
http = "*"
redis = { version = "*", features = ["tokio-comp", "connection-manager", "script"] }
reqwest = { version = "*", default-features = false }
serde = { version = "*", features = ["derive"] }
serde_json = "*"
tokio = { version = "*", features = ["full"] }
tracing = "*"
tracing-subscriber = { version = "*", features = ["env-filter", "json"] }
