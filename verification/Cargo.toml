[package]
name = "tsuitate"
version = "0.1.0"
edition = "2021"
publish = false

[dependencies]
shogi_core = "0.1"
shogi_usi_parser = "0.1"
wasm-bindgen = "0.2"
tsify-next = "0.5"
pyo3 = "0.22"
