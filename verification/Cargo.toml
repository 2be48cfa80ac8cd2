[package]
name = "andy_clicker_core"
version = "0.1.0"
edition = "2021"
publish = false

[dependencies]
alto = "=3.0.4"
anyhow = "=1.0.104"
bytemuck = { version = "=1.25.2", features = ["derive"] }
egui = "=0.19.0"
egui-wgpu = "=0.19.0"
egui-winit = { version = "=0.19.0", default-features = false }
env_logger = "=0.9.3"
futures = "=0.3.34"
image = { version = "=0.24.9", default-features = false, features = ["png"] }
log = "=0.4.34"
mlua = { version = "0.8", features = ["lua54", "vendored"] }
profiling = "=1.0.18"
rand = "0.8"
wgpu = "=0.13.1"
wgpu_glyph = "=0.17.0"
winit = "=0.27.5"
