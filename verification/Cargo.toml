[package]
name = "mandelbrot_explorer"
version = "0.1.0"
edition = "2021"
publish = false

[dependencies]
ggez = "0.5"
num-complex = "0.4"
rand = "0.8"
rayon = "1"
