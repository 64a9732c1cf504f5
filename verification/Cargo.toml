[package]
name = "simulation"
version = "0.1.0"
edition = "2021"
publish = false

[dependencies]
async-trait = "0.1"
futures = "0.3"
tokio = { version = "1", default-features = false, features = ["io-util"] }
tokio-executor = "0.1"
tokio-timer = "0.2"
