[package]
name = "falling_sand"
version = "0.1.0"
edition = "2021"
publish = false

[dependencies]
nannou = "0.18"
serde = { version = "1", features = ["derive"] }
serde_json = "1"
