[package]
name = "crayon"
version = "0.1.0"
edition = "2021"
publish = false

[dependencies]
glutin = "0.19"
gl = "0.11"
rayon = "1"
futures = "0.1"
