[package]
name = "stadium_geometry"
version = "0.1.0"
edition = "2021"
publish = false

[dependencies]
mint = "=0.5.9"
