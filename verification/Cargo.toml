[package]
name = "polis"
version = "0.1.0"
edition = "2021"
publish = false

[dependencies]
serde = { version = "1", features = ["derive"] }
serde_json = "1"
thiserror = "1"
ron = "0.8"
rayon = "1"
pollster = "0.3"
