[package]
name = "sdf_physics"
version = "0.1.0"
edition = "2021"
publish = false

[dependencies]
godot = "*"
