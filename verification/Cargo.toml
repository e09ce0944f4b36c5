[package]
name = "pixy_terrain"
version = "0.1.0"
edition = "2021"
publish = false

[dependencies]
num_cpus = "1"
crossbeam = "0.8"
rayon = "1"
lazy_static = "1"
meshopt = "*"
noise = "0.9"
transvoxel = "1"
