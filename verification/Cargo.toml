[package]
name = "matching_engine"
version = "0.1.0"
edition = "2021"
publish = false

[dependencies]
uuid = { version = "*", features = ["v5"] }
chrono = "*"
redis = { version = "*", features = ["tokio-comp"] }
tokio = { version = "*", features = ["full"] }
serde = { version = "*", features = ["derive"] }
serde_json = "*"
dotenvy = "*"
tracing = "*"
tracing-subscriber = { version = "*", features = ["env-filter"] }
anyhow = "*"
thiserror = "*"
futures = "*"
parking_lot = "*"
sea-orm = { version = "*", default-features = false }
