[package]
name = "astro_origin"
version = "0.1.0"
edition = "2021"
publish = false

[dependencies]
anyhow = "1"
chrono = "0.4"
image = { version = "0.25", default-features = false, features = ["png", "jpeg"] }
pure-onnx-ocr = "*"
r2d2 = "0.8"
r2d2_sqlite = { version = "*", features = ["bundled"] }
rusqlite = { version = "*", features = ["bundled"] }
serde = { version = "1", features = ["derive"] }
serde_json = "1"
