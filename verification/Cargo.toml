[package]
name = "photo_media"
version = "0.1.0"
edition = "2021"
publish = false

[dependencies]
chrono = "0.4"
ndarray = "0.16"
rayon = "1"
