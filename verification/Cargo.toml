[package]
name = "smallishtalk"
version = "0.1.0"
edition = "2021"

[dependencies]
minifb = { version = "*", default-features = false, features = ["x11"] }
