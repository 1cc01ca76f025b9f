[package]
name = "psyduck"
version = "0.1.0"
edition = "2021"
publish = false

[dependencies]
rand = "0.9"
cudarc = { version = "0.17", default-features = false, features = ["std", "driver", "nvrtc", "dynamic-loading", "cuda-12080"] }
clap = { version = "4", features = ["derive"] }
serde = { version = "1", features = ["derive"] }
serde_json = "1"
thiserror = "2"
tracing = "0.1"
tracing-subscriber = "0.3"
opentelemetry = "0.29"
opentelemetry_sdk = "0.29"
opentelemetry-prometheus = "0.29"
prometheus = "*"
