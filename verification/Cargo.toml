[package]
name = "shared"
version = "0.1.0"
edition = "2021"
publish = false

[dependencies]
gl_loader = "=0.1.2"
glow = "=0.18.0"
itertools = "=0.15.0"
raylib = "=6.0.0"
texture_packer = "=0.30.0"
