[package]
name = "markc"
version = "0.1.0"
edition = "2021"
publish = false

[dependencies]
image = { version = "0.25", default-features = false, features = ["png", "jpeg"] }
ab_glyph = "0.2"
serde = { version = "1", features = ["derive"] }
walkdir = "2"
