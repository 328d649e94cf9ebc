[package]
name = "semantic_router"
version = "0.1.0"
edition = "2021"
publish = false

[dependencies]
anyhow = "1"
axum = { version = "0.8", default-features = false, features = ["http1", "json", "query", "tokio"] }
candle-core = { version = "0.11", default-features = false }
candle-nn = { version = "0.11", default-features = false }
candle-transformers = { version = "0.11", default-features = false }
hf-hub = { version = "0.5", default-features = false, features = ["rustls-tls", "tokio"] }
opentelemetry = { version = "*", default-features = false, features = ["trace"] }
opentelemetry-otlp = { version = "*", default-features = false, features = ["http-proto", "reqwest-blocking-client", "trace"] }
opentelemetry_sdk = { version = "*", default-features = false, features = ["trace"] }
regex = "1"
reqwest = { version = "*", default-features = false, features = ["json", "stream"] }
serde = { version = "1", features = ["derive"] }
serde_json = "1"
serde_yaml = "0.9"
tokenizers = { version = "*", default-features = false, features = ["onig"] }
tokio = { version = "1", features = ["macros", "net", "rt-multi-thread", "sync"] }
tower-http = { version = "0.6", features = ["trace"] }
tracing = "0.1"
tracing-opentelemetry = { version = "*", default-features = false }
tracing-subscriber = { version = "0.3", features = ["env-filter"] }
