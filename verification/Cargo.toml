[package]
name = "handheld_overlay"
version = "0.1.0"
edition = "2021"
publish = false

[dependencies]
image = { version = "0.25", default-features = false, features = ["png"] }
toml = "0.8"
serde = { version = "1", features = ["derive"] }
chrono = "0.4"
eframe = { version = "0.29", default-features = false, features = ["glow", "default_fonts", "x11"] }
