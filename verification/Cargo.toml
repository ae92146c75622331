[package]
name = "cube_game"
version = "0.1.0"
edition = "2021"
publish = false

[dependencies]
rand = "0.8"
cgmath = "0.18"
bytemuck = { version = "1", features = ["derive"] }
debug-ignore = "1"
image = { version = "0.24", default-features = false, features = ["png"] }
log = "0.4"
pollster = "0.3"
