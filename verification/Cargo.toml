[package]
name = "bytescope"
version = "0.1.0"
edition = "2021"
publish = false

[dependencies]
serde = { version = "*", features = ["derive"] }
serde_bytes = "*"
serde-wasm-bindgen = "*"
wasm-bindgen = "*"
