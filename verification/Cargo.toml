[package]
name = "btcdeb-engine"
version = "0.1.0"
edition = "2021"
publish = false

[dependencies]
bitcoin = "0.32"
hex = "0.4"
serde = { version = "1", features = ["derive"] }
serde-wasm-bindgen = "0.6"
wasm-bindgen = "0.2"
