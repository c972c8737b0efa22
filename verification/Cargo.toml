[package]
name = "unityfs"
version = "0.1.0"
edition = "2021"
publish = false

[dependencies]
console_error_panic_hook = "0.1"
image = { version = "0.23", default-features = false, features = ["dxt"] }
js-sys = "0.3"
lazy_static = "1"
png = "0.16"
serde = { version = "1", features = ["derive"] }
wasm-bindgen = "0.2"
