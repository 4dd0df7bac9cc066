[package]
name = "gear_test"
version = "0.1.0"
edition = "2021"
publish = false

[dependencies]
anyhow = "=1.0.104"
serde = { version = "=1.0.229", features = ["derive"] }
serde_yaml = "=0.8.26"
hex = "=0.4.3"
primitive-types = { version = "=0.10.1", features = ["serde"] }
gear-core = "=0.1.0"
