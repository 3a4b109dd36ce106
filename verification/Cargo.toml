[package]
name = "v1000"
version = "0.1.0"
edition = "2021"
publish = false

[dependencies]
lru = "0.12"
thiserror = "2"
anyhow = "1"
eframe = { version = "0.29", default-features = false, features = ["default_fonts", "glow"] }
ffmpeg-the-third = "3"
