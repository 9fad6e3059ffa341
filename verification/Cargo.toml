[package]
name = "webserver"
version = "0.1.0"
edition = "2021"
publish = false

[dependencies]
anyhow = "=1.0.104"
axum = { version = "=0.8.9", features = ["ws"] }
axum-proxy = { version = "=0.8.0", features = ["https", "axum"] }
clap = { version = "=4.6.7", features = ["derive"] }
libloading = "=0.8.9"
notify = "=8.2.1"
serde = { version = "=1.0.229", features = ["derive"] }
serde_json = "=1.0.154"
shellexpand = "=3.1.2"
tokio = { version = "=1.54.1", features = ["full"] }
toml = "=1.1.8"
tower = { version = "=0.5.3", features = ["make"] }
tower-http = { version = "=0.6.11", features = ["compression-gzip", "compression-br", "fs"] }
tracing = "=0.1.44"
tracing-subscriber = "=0.3.23"
