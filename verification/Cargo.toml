[package]
name = "nfp"
version = "0.1.0"
edition = "2021"
publish = false

[dependencies]
anyhow = "*"
font8x8 = "*"
gif = "*"
petgraph = "*"
rand = "*"
rand_chacha = "*"
