[package]
name = "tin"
version = "0.1.0"
edition = "2021"
publish = false

[dependencies]
wide = "*"
rayon = "*"
num_cpus = "*"
rand = "*"
