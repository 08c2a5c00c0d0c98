[package]
name = "cpace-wasm"
version = "0.1.0"
edition = "2021"
publish = false

[dependencies]
curve25519-elligator2 = { version = "=0.1.0-alpha.2", features = ["digest"] }
wasm-bindgen = "=0.2.129"
