[package]
name = "feed_rs"
version = "0.1.0"
edition = "2021"
publish = false

[dependencies]
chrono = "=0.4.45"
scraper = "=0.29.0"
serde = { version = "=1.0.229", features = ["derive"] }
serde_json = "=1.0.154"
serde_yaml = "=0.9.34"
reqwest = { version = "=0.13.5", features = ["json"] }
tokio = { version = "=1.54.1", features = ["full"] }
