[package]
name = "pixel_overlay"
version = "0.1.0"
edition = "2021"
publish = false

[dependencies]
image = { version = "0.24", default-features = false, features = ["jpeg"] }
base64 = "0.21"
rand = "0.8"
rayon = "1"
