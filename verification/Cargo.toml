[package]
name = "cluster_metadata"
version = "0.1.0"
edition = "2021"
publish = false

[dependencies]
chrono = { version = "=0.4.45", default-features = false, features = ["clock", "serde"] }
rdkafka = { version = "=0.39.0", default-features = false }
serde = { version = "=1.0.229", features = ["derive"] }
