[package]
name = "wormula"
version = "0.1.0"
edition = "2021"
publish = false

[dependencies]
nom = "7"
regex = "1"

[dev-dependencies]
wasmparser = "*"
