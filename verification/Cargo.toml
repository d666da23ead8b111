[package]
name = "tundra"
version = "0.1.0"
edition = "2021"
publish = false

[dependencies]
petgraph = "*"
regex = "1"
conrod_core = "0.63"
conrod_glium = "0.63"
conrod_winit = "0.63"
glium = "0.23"
find_folder = "0.3"
image = "0.21"
