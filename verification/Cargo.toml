[package]
name = "swir"
version = "0.1.0"
edition = "2021"
publish = false

[dependencies]
regex = "=1.13.1"
base64 = "=0.12.3"
rand = { version = "=0.7.3", features = ["small_rng"] }
serde = { version = "=1.0.229", features = ["derive"] }
serde_json = "=1.0.154"
tokio = { version = "=0.2.25", features = ["full"] }
hyper = "=0.13.10"
http = "=0.2.12"
futures = "=0.3.34"
config = "=0.10.1"
redis = "0.17"
hostname = "0.3"
