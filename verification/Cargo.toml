[package]
name = "resume_insight"
version = "0.1.0"
edition = "2021"
publish = false

[dependencies]
sha2 = "*"
uuid = { version = "*", features = ["v4"] }
serde = { version = "*", features = ["derive"] }
serde_json = "*"
tokio = { version = "*", features = ["full"] }
axum = { version = "*", features = ["multipart"] }
reqwest = { version = "*", default-features = false, features = ["json"] }
chrono = "*"
tower-http = { version = "*", features = ["cors", "fs", "limit", "trace"] }
tracing = "*"
tracing-subscriber = { version = "*", features = ["env-filter"] }
dotenvy = "*"
anyhow = "*"
thiserror = "*"
