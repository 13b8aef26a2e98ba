[package]
name = "queue_core"
version = "0.1.0"
edition = "2021"
publish = false

[dependencies]
chrono = "*"
deadpool-redis = "*"
derivative = "*"
hashicorp_vault = "*"
redis = "*"
serde = "*"
tokio = { version = "*", features = ["sync", "rt", "time"] }
