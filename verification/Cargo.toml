[package]
name = "widget_container"
version = "0.1.0"
edition = "2021"
publish = false

[dependencies]
serde = { version = "=1.0.229", features = ["derive"] }
serde_json = "=1.0.154"
uuid = { version = "=1.29.0", features = ["v4"] }
urlencoding = "=2.1.3"
clone_all = "=0.1.1"
tokio = { version = "=1.54.1", features = ["rt-multi-thread", "macros"] }
tracing-subscriber = "=0.3.23"
url = "=2.5.8"
matrix-sdk = { version = "=0.9.0", default-features = false, features = ["experimental-widgets", "rustls-tls"] }
