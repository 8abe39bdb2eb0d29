[package]
name = "indexer_events"
version = "0.1.0"
edition = "2021"
publish = false

[dependencies]
actix-web = "=4.18.1"
anyhow = "=1.0.104"
base64 = "=0.13.1"
bigdecimal = "=0.3.1"
cached = { version = "=0.51.4", default-features = false }
chrono = "=0.4.45"
clap = { version = "=3.2.25", features = ["derive", "env"] }
dotenv = "=0.15.0"
futures = "=0.3.34"
lazy_static = "=1.5.1"
prometheus = "=0.13.4"
regex = "=1.13.1"
serde = { version = "=1.0.229", features = ["derive"] }
serde_json = "=1.0.154"
sqlx = { version = "=0.8.6", default-features = false, features = ["runtime-tokio", "postgres", "bigdecimal"] }
tokio = { version = "=1.54.1", features = ["rt-multi-thread", "macros", "sync"] }
tokio-stream = "=0.1.19"
tracing = "=0.1.44"
tracing-appender = "=0.2.5"
tracing-subscriber = { version = "=0.3.23", features = ["env-filter"] }
