[package]
name = "zui"
version = "0.1.0"
edition = "2021"
publish = false

[dependencies]
anyhow = "1"
bytemuck = "1"
log = "0.4"
raw-window-handle = "0.6"
unicode-segmentation = "1"
web-sys = { version = "0.3", features = ["HtmlInputElement", "HtmlCanvasElement"] }
wgpu = { version = "29", default-features = false, features = ["std", "parking_lot", "vulkan", "wgsl"] }
