[package]
name = "church"
version = "0.1.0"
edition = "2021"
publish = false

[dependencies]
wasm-encoder = "=0.262.0"

[dev-dependencies]
wasmparser = "=0.262.0"
