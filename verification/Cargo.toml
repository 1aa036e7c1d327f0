[package]
name = "ai_client"
version = "0.1.0"
edition = "2021"
publish = false

[dependencies]
base64 = "0.22"
mime_guess = "2"
markdown = "*"
chrono = "0.4"
uuid = { version = "1", features = ["v4"] }
rand = "0.8"
serde = { version = "1", features = ["derive"] }
serde_json = "1"
toml = "0.8"
anyhow = "1"
async-openai = "0.26"
reqwest = { version = "0.12", default-features = false, features = ["json", "rustls-tls", "stream"] }
tokio = { version = "1", features = ["full"] }
futures = "0.3"
bytes = "1"
sled = "0.34"
tempfile = "3"
dirs = "5"
once_cell = "1"
tracing = "0.1"
tracing-core = "0.1"
tracing-subscriber = { version = "0.3", features = ["env-filter"] }
tracing-appender = "0.2"
thread-id = "4"
sentry-tracing = "0.34"
