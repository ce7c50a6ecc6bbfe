[package]
name = "options_desk"
version = "0.1.0"
edition = "2021"
publish = false

[dependencies]
chrono = { version = "=0.4.45", features = ["serde"] }
uuid = { version = "=1.29.0", features = ["v4", "serde"] }
serde = { version = "=1.0.229", features = ["derive"] }
serde_json = "=1.0.154"
gloo-net = { version = "=0.6.0", default-features = false, features = ["http", "json"] }
