[package]
name = "imgscript"
version = "0.1.0"
edition = "2021"
publish = false

[dependencies]
ndarray = "0.16"
chumsky = "0.10"
ariadne = "0.5"
peak_alloc = "0.2"
image = { version = "0.25", default-features = false, features = ["png", "jpeg"] }
