[package]
name = "atool"
version = "0.1.0"
edition = "2021"
publish = false

[dependencies]
rand = "=0.8.8"
ffmpeg-next = "=6.1.1"
hound = "=3.5.1"
serde = { version = "=1.0.229", features = ["derive"] }
hf-hub = { version = "=0.3.2", default-features = false }
burn = { version = "0.14", default-features = false, features = ["std"] }
burn-wgpu = { version = "0.14", default-features = false }
