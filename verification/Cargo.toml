[package]
name = "server_rs"
version = "0.1.0"
edition = "2021"
publish = false

[dependencies]
async-trait = "=0.1.92"
axum = "=0.8.9"
quote = "=1.0.47"
serde = { version = "=1.0.229", features = ["derive"] }
syn = "=2.0.119"
tokio = { version = "=1.54.1", features = ["sync", "rt", "macros"] }
tracing = "=0.1.44"
