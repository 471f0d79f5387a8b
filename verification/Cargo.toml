[package]
name = "fruit_splat"
version = "0.2.0"
edition = "2021"
publish = false

[dependencies]
macroquad = { version = "0.4", default-features = false }
miniquad = "0.4"
