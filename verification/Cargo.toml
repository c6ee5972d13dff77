[package]
name = "wam"
version = "0.1.0"
edition = "2021"
publish = false

[dependencies]
kiss3d = "0.35"
nalgebra = "0.30"
wasm-bindgen = "0.2"
web-sys = "0.3"
