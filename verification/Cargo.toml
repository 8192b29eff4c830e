[package]
name = "pizza_factory"
version = "0.1.0"
edition = "2021"
publish = false

[dependencies]
ciborium = "0.2"
clap = { version = "4", features = ["derive"] }
serde_json = "1"
uuid = { version = "1", features = ["v4"] }
