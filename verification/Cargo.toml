[package]
name = "miniscript_nodes"
version = "0.1.0"
edition = "2021"
publish = false

[dependencies]
miniscript = "12"
wasm-bindgen = "0.2"
js-sys = "0.3"
