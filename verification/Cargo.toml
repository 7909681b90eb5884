[package]
name = "trace_dispatch"
version = "0.1.0"
edition = "2021"
publish = false

[dependencies]
lazy_static = "1"
tokio = { version = "1", features = ["rt", "sync", "time", "net"] }
