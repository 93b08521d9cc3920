[package]
name = "wasm_storage"
version = "0.1.0"
edition = "2021"
publish = false

[dependencies]
prost = { version = "0.12", features = ["derive"] }
prost-types = "0.12"
