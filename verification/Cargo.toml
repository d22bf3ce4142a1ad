[package]
name = "blackjack_backend"
version = "0.1.0"
edition = "2021"
publish = false

[dependencies]
anyhow = "*"
axum = { version = "*", features = ["ws"] }
axum-extra = { version = "*", features = ["typed-header"] }
bb8 = "*"
bb8-postgres = "*"
chrono = { version = "*", features = ["serde"] }
futures-util = "*"
headers = "*"
http = "*"
rand = "*"
serde = { version = "*", features = ["derive"] }
serde_json = "*"
tokio = { version = "*", features = ["full"] }
tokio-postgres = "*"
tokio-util = { version = "*", features = ["io"] }
tower-http = { version = "*", features = ["cors", "trace"] }
tracing-subscriber = { version = "*", features = ["env-filter"] }
uuid = { version = "*", features = ["v4"] }
