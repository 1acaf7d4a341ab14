[package]
name = "canvas_craft"
version = "0.1.0"
edition = "2021"
publish = false

[dependencies]
rusttype = "0.9"

[dependencies.image]
version = "0.25"
default-features = false
features = ["webp"]
