[package]
name = "gpu_reduction"
version = "0.1.0"
edition = "2021"
publish = false

[dependencies]
metal = { version = "=0.33.0", default-features = false }
