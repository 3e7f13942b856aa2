[package]
name = "bf_wasm"
version = "0.1.0"
edition = "2021"
publish = false

[dependencies]
wasm-encoder = "*"
wasmparser = "*"
clap = { version = "*", features = ["derive"] }
wasm-bindgen = "*"
