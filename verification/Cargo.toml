[package]
name = "site_server"
version = "0.1.0"
edition = "2021"
publish = false

[dependencies]
axum = "0.6"
rand = "0.8"
tokio = { version = "1", features = ["full"] }
tower-http = { version = "0.4", features = ["fs"] }
tracing-subscriber = "0.3"
