[package]
name = "raytrace"
version = "0.1.0"
edition = "2021"
publish = false

[dependencies]
crossbeam = "*"
image = "*"
num_cpus = "*"
rand = "*"
