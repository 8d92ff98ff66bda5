[package]
name = "rust_router"
version = "0.1.0"
edition = "2021"
publish = false

[dependencies]
serde_json = "1"
http = "0.2"
chrono = "0.4"
hyper = { version = "0.14", features = ["full"] }
hyper-tls = "0.5"
tokio = { version = "1", features = ["full"] }
tracing = "0.1"
tracing-subscriber = "0.3"
rand = "0.8"
uuid = { version = "1", features = ["v4"] }
