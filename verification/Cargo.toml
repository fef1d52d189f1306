[package]
name = "fractalisator"
version = "0.1.0"
edition = "2021"
publish = false

[dependencies]
rayon = "*"
resize = "*"
image = { version = "*", default-features = false, features = ["png"] }
