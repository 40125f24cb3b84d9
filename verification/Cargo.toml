[package]
name = "astraglyph"
version = "0.1.0"
edition = "2021"
publish = false

[dependencies]
wgpu = { version = "*", default-features = false }
winit = { version = "=0.30.13", default-features = false, features = ["x11", "rwh_06"] }
