[package]
name = "budgettool_api"
version = "0.1.0"
edition = "2021"
publish = false

[dependencies]
regex = "1"
axum = { version = "0.8", features = ["multipart"] }
bcrypt = "0.15"
chrono = "0.4"
clap = { version = "4", features = ["derive"] }
dotenvy = "0.15"
jsonwebtoken = "9"
serde = { version = "1", features = ["derive"] }
serde_json = "1"
sqlx = { version = "0.8", default-features = false, features = ["runtime-tokio", "sqlite", "macros"] }
thiserror = "2"
tokio = { version = "1", features = ["full"] }
tracing = "0.1"
tracing-subscriber = "0.3"
uuid = { version = "1", features = ["v4"] }
