[package]
name = "omniscient"
version = "0.1.0"
edition = "2021"
publish = false

[dependencies]
tiktoken-rs = "=0.12.1"
regex = "=1.13.1"
url = "=2.5.8"
scraper = "=0.29.0"
serde = { version = "=1.0.229", features = ["derive"] }
serde_json = "=1.0.154"
reqwest = { version = "=0.12.28", default-features = false, features = ["json", "rustls-tls"] }
tokio = { version = "=1.54.1", features = ["rt-multi-thread", "macros", "time", "sync"] }
async-trait = "=0.1.92"
clap = { version = "=4.6.7", features = ["derive"] }
toml = "=1.1.8"
chrono = { version = "=0.4.45", features = ["serde"] }
uuid = { version = "=1.29.0", features = ["v4", "serde"] }
anyhow = "=1.0.104"
thiserror = "=2.0.21"
tracing = "=0.1.44"
tracing-subscriber = { version = "=0.3.23", features = ["env-filter"] }
colored = "=3.1.1"
indicatif = "=0.18.6"
rusqlite = { version = "*", features = ["bundled"] }
tantivy = "*"
