[package]
name = "wirerope_core"
version = "0.1.0"
edition = "2021"
publish = false

[dependencies]
serde_json = "=1.0.151"
chrono = "=0.4.45"
serde = { version = "=1.0.229", features = ["derive"] }
sea-orm = { version = "=2.0.4", default-features = false, features = ["sqlx-mysql", "runtime-tokio-rustls"] }
redis = { version = "=1.7.1", features = ["tokio-comp"] }
dotenv = "=0.15.0"
log = "*"
tracing = "=0.1.44"
tracing-subscriber = "=0.3.23"
tracing-appender = "=0.2.5"
actix-web = "=4.15.0"
