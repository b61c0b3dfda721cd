[package]
name = "ratelimit"
version = "0.1.0"
edition = "2021"
publish = false

[dependencies]
dashmap = "5"
chrono = { version = "0.4", features = ["serde"] }
http = "1"
serde = { version = "1", features = ["derive"] }
serde_json = "1"
serde_yaml = "0.9"
axum = "0.7"
tokio = { version = "1", features = ["full"] }
tower-http = { version = "0.5", features = ["cors"] }
tracing = "0.1"
tracing-subscriber = { version = "0.3", features = ["json", "env-filter"] }
clap = { version = "4", features = ["derive", "env"] }
anyhow = "1"
thiserror = "1"
async-trait = "0.1"
parking_lot = "0.12"
notify = "6"
prometheus = { version = "0.13", default-features = false }
reqwest = { version = "0.12", default-features = false, features = ["json"] }
mime_guess = "2"
redis = { version = "0.25", default-features = false, features = ["tokio-comp", "script"] }
tokio-stream = "0.1"
