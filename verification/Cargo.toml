[package]
name = "raycaster"
version = "0.1.0"
edition = "2021"
publish = false

[dependencies]
gilrs = { version = "0.11", default-features = false }
image = { version = "0.25", default-features = false, features = ["png", "jpeg"] }
lazy_static = "1.5"
minifb = { version = "0.27", default-features = false, features = ["x11"] }
nalgebra-glm = "0.19"
once_cell = "1.21"
rodio = { version = "0.20", default-features = false, features = ["mp3"] }
