[package]
name = "gloss_renderer"
version = "0.1.0"
edition = "2021"
publish = false

[dependencies]
bincode = { version = "=2.0.1", features = ["serde"] }
serde = { version = "=1.0.229", features = ["derive"] }
log = "=0.4.35"
nalgebra = "0.33"
