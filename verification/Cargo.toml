[package]
name = "rgb_spectra"
version = "0.1.0"
edition = "2021"
publish = false

[dependencies]
rgb2spec = "*"
bytemuck = "1"
image = { version = "0.25", default-features = false, features = ["jpeg", "png"] }
