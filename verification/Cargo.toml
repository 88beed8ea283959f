[package]
name = "sig"
version = "0.1.0"
edition = "2021"
publish = false

[dependencies]
anyhow = "1"
futures = "0.3"
grep = "0.3"
promkit = "0.4"
tokio = { version = "1", features = ["full"] }
tokio-util = "0.7"
