[package]
name = "luma_energy"
version = "0.1.0"
edition = "2021"
publish = false

[dependencies]
data-url = "*"
image = { version = "*", default-features = false, features = ["png"] }
wasm-bindgen = "*"
web-sys = { version = "*", features = ["console"] }
console_error_panic_hook = "*"
