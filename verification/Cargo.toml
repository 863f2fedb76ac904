[package]
name = "viaduct_core"
version = "0.1.0"
edition = "2021"
publish = false

[dependencies]
url = "=2.5.8"
md-5 = "=0.10.6"
lru = "=0.12.5"
chrono = { version = "=0.4.45", features = ["serde"] }
quick-xml = { version = "=0.37.5", features = ["serialize", "escape-html"] }
serde = { version = "=1.0.229", features = ["derive"] }
serde_json = "=1.0.154"
tokio = { version = "1", features = ["rt-multi-thread", "sync", "time", "fs"] }
reqwest = { version = "0.12", default-features = false, features = ["rustls-tls", "json", "gzip", "brotli"] }
rusqlite = { version = "*", features = ["bundled"] }
tracing = "0.1"
thiserror = "*"
anyhow = "1"
