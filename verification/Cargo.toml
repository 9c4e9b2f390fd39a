[package]
name = "knave_shell"
version = "0.1.0"
edition = "2021"
publish = false

[dependencies]
base64 = "=0.23.1"
png = "=0.18.1"
freedesktop-desktop-entry = { version = "=0.8.4", default-features = false }
freedesktop-icons = "=0.4.0"
resvg = "=0.49.0"
thiserror = "=2.0.21"
bytemuck = { version = "=1.25.2", features = ["derive"] }
pollster = "=1.0.1"
wgpu = "=30.0.1"
smithay-client-toolkit = "=0.21.1"
wayland-client = "=0.31.15"
