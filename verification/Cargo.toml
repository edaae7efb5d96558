[package]
name = "rust_sse"
version = "0.1.0"
edition = "2021"
publish = false

[dependencies]
bytes = "1"
async-stream = "*"
futures-core = "*"
futures-sink = "*"
futures-util = { version = "*", features = ["sink"] }
reqwest = { version = "*", default-features = false, features = ["stream"] }
thiserror = "*"
tokio = { version = "1", features = ["full"] }
tokio-stream = "*"
tokio-tungstenite = "*"
tonic = "*"
tracing = "*"
axum = { version = "*", default-features = false }
