[package]
name = "companion"
version = "0.1.0"
edition = "2021"
publish = false

[dependencies]
font8x8 = "=0.3.1"
image = { version = "=0.25.10", default-features = false, features = ["png", "jpeg", "gif", "webp"] }
resvg = { version = "=0.49.0", default-features = false }
glam = "=0.34.2"
rand = "=0.8.8"
serde = { version = "=1.0.229", features = ["derive"] }
toml = "=1.1.8"
x11rb = "=0.13.2"
winit = "=0.30.13"
wgpu = "=29.0.4"
pollster = "=1.0.1"
bytemuck = { version = "=1.25.2", features = ["derive"] }
windows-sys = { version = "=0.61.2", features = ["Win32_Foundation", "Win32_Graphics_Gdi", "Win32_UI_WindowsAndMessaging"] }
