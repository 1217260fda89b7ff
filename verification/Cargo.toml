[package]
name = "valve_map"
version = "0.1.0"
edition = "2021"
publish = false

[dependencies]
anyhow = "1"
glam = "0.24"
serde = "1"

[dev-dependencies]
nom = "7"
