[package]
name = "dreamfield_renderer"
version = "0.1.0"
edition = "2021"
publish = false

[dependencies]
cgmath = "*"
gl = "*"
gltf = { version = "*", features = ["KHR_lights_punctual", "extras"] }
serde = { version = "*", features = ["derive"] }
serde_json = "*"
