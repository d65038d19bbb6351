[package]
name = "voxel_engine"
version = "0.1.0"
edition = "2021"
publish = false

[dependencies]
priority-queue = "2"
hashbrown = "0.15"
rustc-hash = "2"
ahash = "0.8"
bevy = { version = "0.16", default-features = false }
parking_lot = "0.12"
noise = "0.9"
