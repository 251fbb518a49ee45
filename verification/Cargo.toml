[package]
name = "stacked_worlds"
version = "0.1.0"
edition = "2021"
publish = false

[dependencies]
failure = "=0.1.8"
nalgebra = "=0.29.0"
ncollide2d = "=0.32.0"
nphysics2d = "=0.24.0"
piston = "=1.0.0"
piston2d-graphics = "=0.45.0"
piston2d-opengl_graphics = "=0.89.0"
pistoncore-glutin_window = "=0.73.2"
ron = "=0.4.2"
serde = "=1.0.229"
serde_derive = "=1.0.229"
serde_json = "=1.0.154"
specs = { version = "=0.12.3", features = ["serde"] }
specs-derive = "=0.4.1"
