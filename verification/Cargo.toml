[package]
name = "faas_core"
version = "0.1.0"
edition = "2021"
publish = false

[dependencies]
uuid = { version = "=1.27.0", features = ["v4"] }
chrono = "=0.4.45"
serde = { version = "=1.0.229", features = ["derive"] }
serde_json = "=1.0.151"
wasmtime = "=48.0.5"
wasmtime-wasi = "=48.0.5"
anyhow = "=1.0.104"
axum = "=0.8.9"
reqwest = { version = "=0.13.5", features = ["json"], default-features = false }
tokio = { version = "=1.53.2", features = ["full"] }
clap = { version = "=4.6.7", features = ["derive"] }
tracing = "=0.1.44"
tracing-subscriber = "=0.3.23"
derive_more = { version = "=2.1.1", features = ["display"] }
