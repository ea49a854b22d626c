[package]
name = "gpui_atlas"
version = "0.1.0"
edition = "2021"
publish = false

[dependencies]
anyhow = "1"
bytemuck = { version = "1", features = ["derive"] }
futures = "0.3"
parking_lot = "0.12"
pollster = "0.4"
raw-window-handle = "0.6"
uuid = { version = "1", features = ["v5"] }
wgpu = "25"
winit = "0.30"
