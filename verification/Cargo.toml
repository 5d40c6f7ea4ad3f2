[package]
name = "market_time"
version = "0.1.0"
edition = "2021"
publish = false

[dependencies]
jiff = { version = "=0.2.39", features = ["tzdb-bundle-always"] }
jiff-tzdb = "=0.1.9"
sha2 = "=0.10.9"
url = "=2.5.8"
serde = { version = "=1.0.229", features = ["derive"] }
serde_json = "=1.0.154"
hifitime = "=4.3.1"
axum = "0.8"
tokio = { version = "1", features = ["macros", "rt-multi-thread", "net", "signal"] }
tower = { version = "0.5", features = ["limit", "timeout", "util"] }
tower-http = { version = "0.6", features = ["compression-gzip", "cors", "request-id", "trace", "fs"] }
tracing = "0.1"
tracing-subscriber = { version = "0.3", features = ["env-filter"] }
