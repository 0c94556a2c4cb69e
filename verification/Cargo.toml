[package]
name = "runwell"
version = "0.1.0"
edition = "2021"
publish = false

[dependencies]
wasmparser = { version = "=0.51.4", features = ["deterministic"] }
derive_more = "=0.99.20"
