[package]
name = "fj_kernel"
version = "0.1.0"
edition = "2021"
publish = false

[dependencies]
nalgebra = "*"
parry3d-f64 = "*"
