[package]
name = "voxel_world"
version = "0.1.0"
edition = "2021"
publish = false

[dependencies]
rand = "0.8"
noise = "0.8"
glam = "0.24"
anyhow = "1"
log = "0.4"
env_logger = "0.10"
