[package]
name = "zedazo"
version = "0.1.0"
edition = "2021"
publish = false

[dependencies]
anyhow = "=1.0.104"
axum = { version = "=0.8.9", features = ["multipart"] }
chardetng = "=0.1.17"
encoding_rs = "=0.8.44"
chrono = "=0.4.45"
clap = { version = "=4.6.7", features = ["derive"] }
clap_complete = "=4.6.11"
futures-util = "=0.3.34"
hex = "=0.4.3"
mime_guess = "=2.0.5"
reqwest = { version = "=0.12.28", default-features = false, features = ["blocking", "rustls-tls"] }
roxmltree = "=0.20.0"
serde = { version = "=1.0.229", features = ["derive"] }
serde_json = "=1.0.154"
sha2 = "=0.10.9"
tempfile = "=3.27.0"
thiserror = "=2.0.21"
tokio = { version = "=1.54.1", features = ["full"] }
tokio-stream = { version = "=0.1.19", features = ["sync"] }
toml = "=0.8.23"
tower-http = { version = "=0.6.11", features = ["cors", "limit", "trace"] }
tracing = "=0.1.44"
tracing-subscriber = { version = "=0.3.23", features = ["env-filter"] }
uuid = { version = "=1.29.1", features = ["v7"] }
