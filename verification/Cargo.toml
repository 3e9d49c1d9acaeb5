[package]
name = "controller"
version = "0.1.0"
edition = "2021"
publish = false

[dependencies]
anyhow = "1"
byteorder = "1"
gltf = "1"
log = "0.4"
nalgebra = "*"
serde_json = "1"
