[package]
name = "match_server"
version = "0.1.0"
edition = "2021"
publish = false

[dependencies]
argon2 = { version = "=0.5.3", features = ["std"] }
axum = { version = "=0.8.9", features = ["ws", "macros"] }
clap = { version = "=4.6.7", features = ["derive"] }
color-eyre = "=0.6.5"
jsonwebtoken = "=9.3.1"
rand = "=0.9.5"
reqwest = { version = "=0.12.28", default-features = false }
rusqlite = { version = "=0.40.2", features = ["bundled"] }
serde = { version = "=1.0.229", features = ["derive"] }
serde_json = "=1.0.154"
thiserror = "=2.0.21"
tokio = { version = "=1.54.1", features = ["full"] }
tower-http = { version = "=0.6.11", features = ["fs", "trace"] }
tracing = "=0.1.44"
tracing-subscriber = "=0.3.23"
