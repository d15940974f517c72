[package]
name = "scenes"
version = "0.1.0"
edition = "2021"
publish = false

[dependencies]
cgmath = "0.18"
gloo = "0.8"
image = { version = "0.24", default-features = false, features = ["png", "jpeg"] }
js-sys = "0.3"
tobj = { version = "3.2", features = ["async"] }
wasm-bindgen-futures = "0.4"
web-sys = { version = "0.3", features = ["WebGl2RenderingContext"] }
yew = "0.19"
yew-canvas = "*"
