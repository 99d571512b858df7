[package]
name = "noise_road"
version = "0.1.0"
edition = "2021"
publish = false

[dependencies]
noise = { version = "=0.6.0", default-features = false }
sdl2 = "=0.35.2"
