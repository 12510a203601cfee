[package]
name = "raytracer"
version = "0.1.0"
edition = "2021"
publish = false

[dependencies]
cgmath = "0.18"
num_cpus = "1"
rand = { version = "0.8", features = ["small_rng"] }
rayon = "1"
