[package]
name = "loomik"
version = "1.0.0"
edition = "2021"
publish = false

[dependencies]
image = { version = "=0.25.10", default-features = false, features = ["png", "jpeg"] }
serde = { version = "=1.0.229", features = ["derive"] }
serde_json = "=1.0.154"
anyhow = "=1.0.104"
crossbeam-channel = "=0.5.17"
uuid = { version = "=1.29.0", features = ["v4"] }
chrono = "=0.4.45"
directories = "=6.0.0"
fast_image_resize = "5"
