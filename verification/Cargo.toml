[package]
name = "ar_hist"
version = "0.1.0"
edition = "2021"
publish = false

[dependencies]
chrono = "0.4"
serde = { version = "1", features = ["derive"] }
serde_derive = "1"
serde_json = "1"
clap = "2.34"
env_logger = "0.11"
log = "0.4"
hyper = { version = "0.14", features = ["client", "http1", "tcp"] }
tokio = { version = "1", features = ["rt"] }
openssl = "0.10"
postgres = "0.19"
postgres-openssl = "0.5"
redis = "0.32"
