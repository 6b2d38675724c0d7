[package]
name = "ldraw_parts"
version = "0.1.0"
edition = "2021"
publish = false

[dependencies]
chrono = "0.4"
three-d = "0.15"
wasm-bindgen = "0.2"
wasm-bindgen-futures = "0.4"
web-sys = { version = "0.3", features = ["Request", "RequestInit", "RequestMode", "Response", "Window"] }
winit = "0.28"
