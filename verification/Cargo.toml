[package]
name = "flock_lab"
version = "0.1.0"
edition = "2021"
publish = false

[dependencies]
anyhow = "1"
bytemuck = { version = "1", features = ["derive"] }
egui = "0.26"
glam = "0.25"
rand = "0.8"
