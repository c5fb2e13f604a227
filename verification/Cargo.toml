[package]
name = "prospi"
version = "0.1.0"
edition = "2021"
publish = false

[dependencies]
serde_json = "=1.0.154"
eframe = { version = "=0.29.1", default-features = false, features = ["glow", "x11"] }
