[package]
name = "miniflux_reader"
version = "0.2.0"
edition = "2021"
publish = false

[dependencies]
quick-xml = "0.37"
zip = { version = "2", default-features = false, features = ["deflate"] }
feed-rs = "2"
chrono = { version = "0.4", default-features = false, features = ["clock", "std"] }
scraper = "0.20"
readability = "0.3"
reqwest = { version = "0.12", default-features = false }
serde = { version = "1", features = ["derive"] }
serde_json = "1"
thiserror = "2"
uuid = { version = "1", features = ["v4"] }
tracing = "0.1"
tracing-subscriber = { version = "0.3", features = ["env-filter"] }
tokio = { version = "1", features = ["rt-multi-thread", "macros", "time"] }
anyhow = "1"

[dev-dependencies]
zip = { version = "2", default-features = false, features = ["deflate"] }
