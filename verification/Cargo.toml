[package]
name = "rate_limits"
version = "0.1.0"
edition = "2021"
publish = false

[dependencies]
anyhow = "1"
getrandom = "0.2"
serde_json = "1"
uuid = { version = "1", features = ["v4"] }
