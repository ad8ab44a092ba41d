[package]
name = "valence_raycast"
version = "0.1.0"
edition = "2021"
publish = false

[dependencies]
glam = "*"
parry3d-f64 = "*"
valence = "*"
voxel-tile-raycast = "*"
