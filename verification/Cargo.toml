[package]
name = "obs_glitch"
version = "0.1.0"
edition = "2021"
publish = false

[dependencies]
image = { version = "0.25", default-features = false }
obs-sys = "0.3.0"
rand = "0.8"
rayon = "1.10"
