[package]
name = "transcribe_bot"
version = "0.1.0"
edition = "2021"
publish = false

[dependencies]
anyhow = "1"
chrono = { version = "=0.4.45", default-features = false, features = ["std", "clock"] }
dashmap = "=6.2.1"
dotenvy = "0.15"
earshot = "1.2"
nnnoiseless = { version = "0.5", default-features = false }
reqwest = { version = "=0.12.28", default-features = false, features = ["json"] }
rubato = "0.16"
rustls = { version = "0.23", default-features = false, features = ["ring", "std"] }
serde = { version = "1", features = ["derive"] }
serde_json = "=1.0.154"
serenity = { version = "0.12", default-features = false, features = ["cache", "client", "gateway", "model", "http", "builder", "utils", "rustls_backend"] }
sherpa-onnx = "2"
songbird = { version = "0.5", default-features = false, features = ["serenity", "driver", "gateway", "receive", "rustls", "tungstenite"] }
tokio = { version = "1", features = ["rt-multi-thread", "macros", "sync", "time", "fs", "io-util"] }
toml = "0.9"
tracing = "0.1"
tracing-subscriber = { version = "0.3", features = ["env-filter"] }
