[package]
name = "fast_matmul"
version = "0.1.0"
edition = "2021"
publish = false

[dependencies]
rayon = "1"
faer = "0.22"
ndarray = "0.16"
rand = "0.8"
serde_json = "1"
criterion = { version = "0.5", default-features = false }
