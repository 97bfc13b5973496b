[package]
name = "drone_jepa"
version = "0.1.0"
edition = "2021"
publish = false

[dependencies]
candle-core = "*"
serde = { version = "1", features = ["derive"] }
serde_json = "1"
serde-wasm-bindgen = "*"
wasm-bindgen = "0.2"
