[package]
name = "layer_compositor"
version = "0.1.0"
edition = "2021"
publish = false

[dependencies]
vello = "0.4"
winit = "0.30"
pollster = "0.4"
image = { version = "0.25", default-features = false, features = ["png"] }
