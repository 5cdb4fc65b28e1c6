[package]
name = "quartz"
version = "0.1.0"
edition = "2021"
publish = false

[dependencies]
anyhow = "=1.0.104"
axum = "=0.7.9"
futures-util = "=0.3.34"
memmap2 = "=0.9.12"
rand = { version = "=0.8.8", features = ["small_rng"] }
rayon = "=1.12.0"
serde = { version = "=1.0.229", features = ["derive"] }
serde_json = "=1.0.154"
tokio = { version = "=1.54.1", features = ["rt-multi-thread", "macros", "sync", "net"] }
tokio-stream = "=0.1.19"
