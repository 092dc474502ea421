[package]
name = "kd_accel"
version = "0.1.0"
edition = "2021"
publish = false

[dependencies]
nalgebra = "*"
nalgebra-glm = "*"
num-traits = "*"
