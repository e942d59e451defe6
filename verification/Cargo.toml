[package]
name = "camera-box"
version = "0.3.4"
edition = "2021"
publish = false

[dependencies]
anyhow = "1"
axum = "0.7"
gpiocdev = "0.7"
libc = "0.2"
serde = { version = "1", features = ["derive"] }
serde_json = "=1.0.154"
sha2 = "=0.10.9"
tokio = { version = "1", features = ["rt-multi-thread", "macros", "net", "process", "time", "sync", "io-util"] }
tokio-util = "0.7"
toml = "0.8"
tracing = "0.1"
tracing-subscriber = { version = "0.3", features = ["env-filter"] }
