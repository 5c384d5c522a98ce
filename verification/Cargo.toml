[package]
name = "ordinals"
version = "0.1.0"
edition = "2021"
publish = false

[dependencies]
anyhow = "1"
bitcoin = "*"
hex = "0.4"
prost = "*"
