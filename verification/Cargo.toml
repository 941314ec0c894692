[package]
name = "ranged_stream"
version = "0.1.0"
edition = "2021"
publish = false

[dependencies]
bytes = "1"
futures = "0.3"
pin-project = "1"
tokio = "1"
