[package]
name = "hotglsl"
version = "0.1.0"
edition = "2021"
publish = false

[dependencies]
glsl-to-spirv = "0.1"
notify = "=5.0.0-pre.2"
thiserror = "1"
