[package]
name = "block_engine"
version = "0.1.0"
edition = "2021"
publish = false

[dependencies]
cgmath = "0.18"
bytemuck = { version = "1", features = ["derive"] }
wgpu = "0.14"
winit = "0.27"
pollster = "0.2"
