[package]
name = "game_of_life"
version = "0.1.0"
edition = "2021"
publish = false

[dependencies]
fft2d = { version = "=0.1.1", features = ["nalgebra"] }
itertools = "=0.15.0"
nalgebra = "=0.29.0"
ndarray = "=0.17.2"
rand = "=0.8.8"
rayon = "=1.12.0"
