[package]
name = "image_combine"
version = "0.1.0"
edition = "2021"
publish = false

[dependencies]
image = "0.25"
mozjpeg = "0.10"
rayon = "1"
flutter_rust_bridge = "2"
