[package]
name = "citybuilder_ecs"
version = "0.1.0"
edition = "2021"
publish = false

[dependencies]
ron = "0.8"
serde = { version = "1", features = ["derive"] }
serde_json = "1"
tiny_http = "0.12"
