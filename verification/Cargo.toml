[package]
name = "death_maze"
version = "0.1.0"
edition = "2021"
publish = false

[dependencies]
image = { version = "0.25", default-features = false, features = ["jpeg", "png"] }
minifb = { version = "0.29", default-features = false, features = ["x11"] }
nalgebra-glm = "*"
rodio = { version = "0.20", default-features = false, features = ["wav", "mp3"] }
rusttype = "0.9"
