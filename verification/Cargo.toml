[package]
name = "broadphase_ccd"
version = "0.1.0"
edition = "2021"
publish = false

[dependencies]
parry3d = "=0.17.6"
nalgebra = "=0.33.3"
