[package]
name = "tcp_udp_stream_provider"
version = "0.1.0"
edition = "2021"
publish = false

[dependencies]
async-nats = "*"
bytes = "1"
chrono = "0.4"
clap = { version = "4", features = ["derive"] }
serde = { version = "1", features = ["derive"] }
serde_json = "1"
tokio = { version = "1", features = ["full"] }
tracing = "0.1"
tracing-subscriber = { version = "0.3", features = ["env-filter"] }
