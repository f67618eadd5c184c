[package]
name = "gpu-image-approximator"
version = "0.1.0"
edition = "2021"
publish = false

[dependencies]
chrono = { version = "=0.4.45", default-features = false, features = ["clock"] }
image = { version = "=0.25.10", default-features = false, features = ["png", "jpeg", "bmp", "gif", "webp", "tiff", "tga", "ico", "qoi", "pnm"] }
rand = { version = "=0.8.8", features = ["small_rng"] }
serde = { version = "=1.0.229", features = ["derive"] }
toml = "=0.8.23"
thiserror = "=2.0.21"
log = "=0.4.35"
env_logger = { version = "=0.11.11", default-features = false }
bytemuck = { version = "=1.25.2", features = ["derive"] }
pollster = "=0.4.0"
wgpu = { version = "=23.0.1", default-features = false, features = ["wgsl"] }
winit = { version = "=0.30.13", default-features = false, features = ["x11", "rwh_06"] }
egui = { version = "=0.30.0", default-features = false, features = ["default_fonts"] }
egui-wgpu = { version = "=0.30.0", default-features = false }
egui-winit = { version = "=0.30.0", default-features = false, features = ["x11"] }
