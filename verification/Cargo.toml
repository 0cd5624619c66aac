[package]
name = "eclipper"
version = "0.1.0"
edition = "2021"
publish = false

[dependencies]
fast_image_resize = "=6.1.0"
lru = "=0.18.5"
base64 = "=0.23.1"
bincode = "=2.0.1"
clap = { version = "=4.6.7", features = ["derive"] }
crossbeam-channel = "=0.5.17"
serde = { version = "=1.0.229", features = ["derive"] }
ffmpeg-next = "=9.0.0"
tesseract = "=0.15.2"
image = "=0.25.10"
