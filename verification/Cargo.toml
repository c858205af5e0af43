[package]
name = "manahg"
version = "0.1.0"
edition = "2021"
publish = false

[dependencies]
fltk = "*"
fltk-theme = "*"
rayon = "1"
serde = { version = "1", features = ["derive"] }
serde_json = "1"
walkdir = "2"
