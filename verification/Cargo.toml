[package]
name = "planet_render"
version = "0.1.0"
edition = "2021"
publish = false

[dependencies]
fastnoise-lite = "=1.1.1"
minifb = "=0.29.0"
nalgebra-glm = "=0.21.0"
rand = "=0.8.8"
tobj = "*"
