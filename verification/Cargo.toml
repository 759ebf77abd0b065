[package]
name = "raycaster"
version = "0.1.0"
edition = "2021"
publish = false

[dependencies]
fastrand = "2"
gif = "0.13"
raylib = "5"
rodio = "0.20"
