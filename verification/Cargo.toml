[package]
name = "jsondiff"
version = "0.1.0"
edition = "2021"
publish = false

[dependencies]
serde = "=1.0.229"
serde_json = { version = "=1.0.151", features = ["preserve_order"] }
json-patch = "=4.2.0"
wasm-bindgen = "=0.2.129"
serde-wasm-bindgen = "=0.6.5"
