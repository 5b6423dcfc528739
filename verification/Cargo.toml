[package]
name = "aurora"
version = "0.1.0"
edition = "2021"
publish = false

[dependencies]
ash = "=0.38.0"
ash-window = "=0.13.0"
bevy = { version = "=0.19.1", default-features = false, features = ["std", "bevy_animation", "bevy_asset", "bevy_mesh", "bevy_image", "hdr"] }
crossbeam = "0.8"
gpu-allocator = { version = "=0.28.0", default-features = false, features = ["std", "vulkan"] }
half = "=2.7.1"
log = "0.4"
lz4_flex = "=0.14.0"
raw-window-handle = "0.6"
thiserror = "2"
wgpu-types = "=29.0.4"
