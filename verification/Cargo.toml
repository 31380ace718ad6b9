[package]
name = "youtubeopen"
version = "0.1.0"
edition = "2021"
publish = false

[dependencies]
async-trait = "=0.1.92"
axum = "=0.8.9"
chrono = "=0.4.45"
dioxus = { version = "=0.6.3", features = ["web"] }
futures-util = "=0.3.34"
gloo-net = { version = "=0.7.0", features = ["http", "json"] }
js-sys = "=0.3.107"
reqwest = { version = "=0.12.28", default-features = false, features = ["brotli", "gzip", "rustls-tls", "stream"] }
rustypipe = "=0.11.4"
serde = { version = "=1.0.229", features = ["derive"] }
serde_json = "=1.0.154"
tempfile = "=3.27.0"
tokio = { version = "=1.54.1", features = ["full"] }
tokio-util = { version = "=0.7.20", features = ["io"] }
tower-http = { version = "=0.7.1", features = ["compression-br", "compression-gzip", "fs"] }
tracing = "=0.1.44"
tracing-subscriber = "=0.3.23"
wasm-bindgen = "=0.2.130"
web-sys = { version = "=0.3.107", features = ["Window"] }
