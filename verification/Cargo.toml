[package]
name = "isosurface"
version = "0.1.0"
edition = "2021"
publish = false

[dependencies]
fxhash = "0.2"
glam = "0.29"
noise = "0.9"
const_array_map = "*"
