[package]
name = "health_metrics"
version = "0.1.0"
edition = "2021"
publish = false

[dependencies]
clap = { version = "4", features = ["derive"] }
csv = "1"
linfa = "0.7"
linfa-trees = { version = "0.7", features = ["serde"] }
ndarray = "0.15"
serde = { version = "1", features = ["derive"] }
serde_json = "1"
