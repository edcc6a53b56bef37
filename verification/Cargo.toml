[package]
name = "rbot_discord"
version = "0.1.0"
edition = "2021"
publish = false

[dependencies]
chrono = "0.4"
chrono-tz = "*"
regex = "1"
rand = "0.8"
log = "0.4"
lazy_static = "1"
dotenv = "0.15"
pretty_env_logger = "*"
tokio = { version = "1", features = ["rt-multi-thread", "macros", "time"] }
serenity = { version = "0.11", default-features = false, features = ["builder", "cache", "client", "gateway", "http", "model", "utils", "rustls_backend"] }
