[package]
name = "terrain"
version = "1.0.0"
edition = "2021"
publish = false

[dependencies]
bytemuck = { version = "=1.25.2", features = ["derive"] }
glam = "0.30"
viewport-lib = "0.18"
wgpu = "27"
