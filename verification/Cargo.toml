[package]
name = "raytracer"
version = "0.1.0"
edition = "2021"
publish = false

[dependencies]
raylib = { version = "=3.7.0", features = ["nobuild"] }
