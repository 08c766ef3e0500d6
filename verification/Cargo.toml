[package]
name = "maze_raycaster"
version = "0.1.0"
edition = "2021"
publish = false

[dependencies]
image = { version = "0.25", default-features = false, features = ["png"] }
minifb = "0.27"
nalgebra-glm = "0.19"
rodio = "0.19"
