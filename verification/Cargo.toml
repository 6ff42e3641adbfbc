[package]
name = "nova_engine"
version = "0.1.0"
edition = "2021"
publish = false

[dependencies]
eframe = { version = "0.37", default-features = false, features = ["default_fonts", "glow", "x11"] }
rand = "0.10"
ron = "0.12"
serde = { version = "1", features = ["derive"] }
