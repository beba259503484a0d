[package]
name = "mneme_core"
version = "0.1.0"
edition = "2021"
publish = false

[dependencies]
uuid = { version = "=1.29.0", features = ["v4"] }
chrono = { version = "=0.4.45", features = ["serde"] }
serde = { version = "=1.0.229", features = ["derive"] }
serde_json = "=1.0.154"
anyhow = "=1.0.104"
async-trait = "=0.1.92"
tokio = { version = "=1.54.1", features = ["full"] }
sqlx = { version = "=0.9.0", default-features = false, features = ["runtime-tokio", "sqlite", "postgres", "chrono", "macros"] }
clap = { version = "=4.6.7", features = ["derive"] }
axum = "=0.7.9"
tower-http = { version = "=0.5.2", features = ["cors"] }
tracing = "=0.1.44"
tracing-subscriber = "=0.3.23"
pgvector = { version = "=0.4.2", features = ["sqlx"] }
pyo3 = "=0.20.3"
