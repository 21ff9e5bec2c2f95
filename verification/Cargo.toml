[package]
name = "katsvg_engine"
version = "0.1.0"
edition = "2021"
publish = false

[dependencies]
serde = { version = "1", features = ["derive"] }
serde_json = "1"
png = "*"
ab_glyph = "*"
katgpt-core = "*"
