[package]
name = "auspex"
version = "0.1.0"
edition = "2021"
publish = false

[dependencies]
actix-cors = "=0.7.2"
actix-web = "=4.18.1"
chrono = { version = "=0.4.45", features = ["serde"] }
dotenvy = "=0.15.7"
env_logger = "=0.11.11"
serde = { version = "=1.0.229", features = ["derive"] }
sqlx = { version = "=0.9.0", default-features = false, features = ["runtime-tokio", "postgres", "chrono"] }
tokio = { version = "=1.54.1", features = ["sync"] }
uuid = { version = "=1.29.0", features = ["v4"] }
