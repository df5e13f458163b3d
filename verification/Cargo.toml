[package]
name = "arithmetic"
version = "0.1.0"
edition = "2021"
publish = false

[dependencies]
log = "0.4"
wasm-bindgen = "0.2"
wasm-logger = "0.2"
