[package]
name = "tonic-debug"
version = "0.1.0"
edition = "2021"
publish = false

[dependencies]
bytes = "1"
http = "1"
http-body = "1"
pin-project-lite = "0.2"
tokio = { version = "1", features = ["time"] }
tower-layer = "0.3"
tower-service = "0.3"
tracing = "0.1"
