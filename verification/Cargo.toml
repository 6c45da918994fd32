[package]
name = "raycaster"
version = "0.1.0"
edition = "2021"
publish = false

[dependencies]
raylib = { version = "=6.0.0", features = ["SUPPORT_IMAGE_GENERATION"] }
