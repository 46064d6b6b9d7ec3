[package]
name = "ip_check"
version = "0.1.0"
edition = "2021"
publish = false

[dependencies]
halo2_proofs = "0.3"
rand = "0.8"
wasm-bindgen = "0.2"
console_error_panic_hook = "0.1"
