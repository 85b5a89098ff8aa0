[package]
name = "voxtral"
version = "0.1.0"
edition = "2021"
publish = false

[dependencies]
anyhow = "=1.0.104"
axum = "=0.8.9"
burn = { version = "=0.22.1", default-features = false }
burn-store = { version = "=0.22.1", default-features = false, features = ["safetensors"] }
candle-core = "=0.11.1"
candle-nn = "=0.11.1"
candle-transformers = "=0.11.1"
env_logger = "=0.11.11"
hound = "=3.5.1"
hyper = { version = "=1.12.0", features = ["http1", "server"] }
hyper-util = { version = "=0.1.21", features = ["tokio", "service"] }
log = "=0.4.35"
serde = { version = "=1.0.229", features = ["derive"] }
serde_json = "=1.0.154"
tekken-rs = "=0.1.2"
tokio = { version = "=1.54.1", features = ["macros", "net", "rt-multi-thread", "sync", "time"] }
