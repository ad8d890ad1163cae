[package]
name = "luty"
version = "0.1.0"
edition = "2021"
publish = false

[dependencies]
image = { version = "0.25", default-features = false, features = ["png", "jpeg", "webp", "tiff", "bmp", "gif", "hdr", "qoi", "tga", "ico", "pnm", "dds", "ff", "exr", "rayon"] }
rayon = "1"
serde = { version = "1", features = ["derive"] }
serde_json = "1"
tokio = { version = "1", features = ["sync"] }
walkdir = "2"
