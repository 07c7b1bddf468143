[package]
name = "tokio-sse-llm"
version = "0.2.0"
edition = "2021"
publish = false

[dependencies]
bytes = "1"
futures-core = "0.3"
futures-util = "0.3"
reqwest = { version = "0.12", default-features = false, features = ["rustls-tls", "stream"] }
serde_json = "1"
tokio = { version = "1", features = ["macros", "rt-multi-thread"] }
tokio-stream = "0.1"
