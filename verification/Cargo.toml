[package]
name = "orrin_core"
version = "0.1.0"
edition = "2021"
publish = false

[dependencies]
serde = { version = "1", features = ["derive"] }
toml = "0.8"
ron = "0.8"
notify = "8"
glam = "0.29"
