[package]
name = "lapce-core"
version = "0.1.0"
edition = "2021"
publish = false

[dependencies]
xi-rope = { version = "=0.3.0", default-features = false }
