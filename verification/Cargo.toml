[package]
name = "my_daily_newspaper"
version = "0.1.0"
edition = "2021"
publish = false

[dependencies]
serde = { version = "1", features = ["derive"] }
serde_json = "1"
url = "2"
regex = "1"
roxmltree = "0.20"
chrono = "0.4"
futures = "0.3"
tokio = { version = "1", features = ["full"] }
reqwest = { version = "0.12", default-features = false, features = ["rustls-tls"] }
png = "0.17"
ab_glyph = "0.2"
