[package]
name = "wordle_entropy"
version = "0.1.0"
edition = "2021"
publish = false

[dependencies]
bytemuck = { version = "1", features = ["derive"] }
clap = { version = "3", features = ["derive"] }
rayon = "1"
spirv-std = "*"
wgpu = "0.12"
