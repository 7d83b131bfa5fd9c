[package]
name = "raytracer"
version = "0.1.0"
edition = "2021"
publish = false

[dependencies]
glam = "*"
num-complex = "0.4"
rand = "0.8"
sdl2 = "*"
