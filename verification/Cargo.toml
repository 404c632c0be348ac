[package]
name = "minirenderer"
version = "0.1.0"
edition = "2021"
publish = false

[dependencies]
rand = "0.8"
glam = "0.24"
image = { version = "0.24", default-features = false, features = ["png", "jpeg"] }
tobj = "4.0"
gltf = "1"
bytemuck = { version = "1", features = ["derive"] }
