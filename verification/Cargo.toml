[package]
name = "rustorch"
version = "0.1.0"
edition = "2021"
publish = false

[dependencies]
bytemuck = "1"
metal = "*"
rand = "0.8"
rayon = "1"
thiserror = "1"
