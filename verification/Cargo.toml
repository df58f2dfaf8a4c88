[package]
name = "wasm_decode"
version = "0.1.0"
edition = "2021"
publish = false

[dependencies]
wasmparser = "=0.261.0"
rangemap = "=1.8.0"
once_cell = "=1.21.4"
log = "=0.4.34"
