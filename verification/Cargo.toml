[package]
name = "poe2openai"
version = "0.1.0"
edition = "2021"
publish = false

[dependencies]
base64 = "=0.22.1"
chrono = "=0.4.45"
futures-util = "=0.3.34"
nanoid = "=0.4.0"
poe_api_process = "=0.2.1"
regex = "=1.13.1"
salvo = { version = "=1.1.0", features = ["serve-static", "size-limiter"] }
serde = { version = "=1.0.229", features = ["derive"] }
serde_json = "=1.0.154"
serde_yaml = "=0.9.34"
sha2 = "=0.10.9"
tiktoken-rs = "=0.12.1"
tokio = { version = "=1.54.1", features = ["full"] }
tracing = "=0.1.44"
tracing-subscriber = { version = "=0.3.23", features = ["env-filter"] }
