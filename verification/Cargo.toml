[package]
name = "rhwp"
version = "0.1.0"
edition = "2021"
publish = false

[dependencies]
base64 = "0.22"
serde_json = "1"
wasm-bindgen = "=0.2.130"
