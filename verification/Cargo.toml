[package]
name = "genmesh"
version = "0.6.2"
edition = "2021"
publish = false

[dependencies]
bevy_render = { version = "0.9", default-features = false }
cgmath = { version = "=0.18.0", features = ["mint"] }
glam = { version = "0.22", features = ["mint"] }
mint = "=0.5.9"
