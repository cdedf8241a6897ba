[package]
name = "protociolla"
version = "0.1.0"
edition = "2021"
publish = false

[dependencies]
bytes = "1.12.1"
futures = "0.3.34"
rmp-serde = "*"
serde = "*"
tokio = { version = "*", features = ["full"] }
tokio-util = { version = "*", features = ["codec"] }
