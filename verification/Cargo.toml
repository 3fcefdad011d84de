[package]
name = "modscope"
version = "0.1.0"
edition = "2021"
publish = false

[dependencies]
bytemuck = "1"
rustfft = "6"
iced = { version = "0.13", default-features = false, features = ["wgpu"] }
image = { version = "0.25", default-features = false, features = ["png"] }
