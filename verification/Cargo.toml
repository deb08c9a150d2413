[package]
name = "image-palette-recoloring"
version = "0.1.0"
edition = "2021"
publish = false

[dependencies]
clap = { version = "4", features = ["derive"] }
good_lp = { version = "1", default-features = false, features = ["minilp"] }
image = { version = "0.24", default-features = false, features = ["png", "jpeg"] }
nalgebra = "0.32"
nalgebra-sparse = "0.9"
qhull = "*"
