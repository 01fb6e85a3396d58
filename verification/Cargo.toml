[package]
name = "cdn_vault"
version = "0.1.0"
edition = "2021"
publish = false

[dependencies]
sha2 = "=0.10.9"
rand = "=0.8.8"
image = "=0.25.10"
fast_image_resize = { version = "=6.1.0", features = ["image"] }
webp = "=0.3.1"
ocrs = "=0.13.1"
rten = "=0.26.0"
