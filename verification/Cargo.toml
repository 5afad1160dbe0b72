[package]
name = "voxel_engine"
version = "0.1.0"
edition = "2021"
publish = false

[dependencies]
ndarray = "=0.15.6"
flurry = "=0.3.1"
serde = { version = "=1.0.229", features = ["derive"] }
bevy = { version = "=0.10.1", default-features = false, features = ["bevy_asset", "bevy_core_pipeline", "bevy_pbr", "bevy_render"] }
