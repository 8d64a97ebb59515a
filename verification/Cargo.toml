[package]
name = "notedock"
version = "0.1.0"
edition = "2021"
publish = false

[dependencies]
anyhow = "=1.0.104"
argon2 = "=0.5.3"
axum = { version = "=0.8.9", features = ["ws"] }
chrono = "=0.4.45"
futures-util = { version = "=0.3.34", features = ["sink"] }
hex = "=0.4.3"
reqwest = { version = "=0.12.28", default-features = false, features = ["json", "rustls-tls"] }
serde = { version = "=1.0.229", features = ["derive"] }
serde_json = "=1.0.154"
sha2 = "=0.10.9"
sqlx = { version = "=0.8.6", default-features = false, features = ["runtime-tokio", "sqlite"] }
thiserror = "=2.0.21"
tokio = { version = "=1.54.1", features = ["full"] }
tower-http = { version = "=0.6.11", features = ["cors", "fs", "trace"] }
tracing = "=0.1.44"
tracing-subscriber = { version = "=0.3.23", features = ["env-filter"] }
uuid = { version = "=1.29.0", features = ["v4", "v7"] }
yrs = { version = "=0.28.0", features = ["small-client"] }
