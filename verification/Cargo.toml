[package]
name = "heathen"
version = "0.1.0"
edition = "2021"
publish = false

[dependencies]
cosmic-text = "=0.8.0"
dashmap = "=5.5.3"
lyon = "=1.0.19"
serde = { version = "=1.0.229", features = ["derive"] }
serde_json = "=1.0.154"
taffy = { version = "=0.3.19", default-features = false, features = ["std", "serde"] }
