[package]
name = "rscarbon"
version = "0.1.0"
edition = "2021"
publish = false

[dependencies]
faer = "0.19"
statrs = "*"
rayon = "*"
extendr-api = "*"
