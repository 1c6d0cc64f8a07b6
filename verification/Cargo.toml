[package]
name = "mips_be"
version = "0.1.0"
edition = "2021"
publish = false

[dependencies]
js-sys = "*"
wasm-bindgen = "*"
