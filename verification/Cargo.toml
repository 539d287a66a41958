[package]
name = "oddity_rtsp_server"
version = "0.1.0"
edition = "2021"
publish = false

[dependencies]
rand = "0.8"
tokio = { version = "1", features = ["sync", "rt-multi-thread", "net", "macros", "io-util", "time"] }
bytes = "1"
tokio-util = { version = "0.7", features = ["codec"] }
tokio-stream = "0.1"
futures = "0.3"
tracing = "0.1"
