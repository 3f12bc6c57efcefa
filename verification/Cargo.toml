[package]
name = "raytracer"
version = "0.1.0"
edition = "2021"
publish = false

[dependencies]
env_logger = "0.11"
error-iter = "*"
log = "0.4"
ocl = "0.19"
thiserror = "1.0"
winit = { version = "0.29", default-features = false, features = ["x11", "rwh_06"] }
winit_input_helper = "0.15"
