[package]
name = "lemon_sand_core"
version = "0.1.0"
edition = "2021"
publish = false

[dependencies]
fastrand = "*"
pixels = "*"
tracing = "*"
tracing-subscriber = "*"
winit = "*"
