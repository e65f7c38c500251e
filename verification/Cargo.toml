[package]
name = "wasm_bridge"
version = "0.5.0"
edition = "2021"
publish = false

[dependencies]
regex = "=1.13.1"
clap = { version = "=4.6.7", features = ["derive"] }
zip = { version = "=0.6.6", default-features = false, features = ["deflate"] }
tempdir = "=0.3.7"
js-component-bindgen = "1"
