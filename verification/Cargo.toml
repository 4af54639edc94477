[package]
name = "namiashi-sim"
version = "0.1.0"
edition = "2021"
publish = false

[dependencies]
log = "=0.4.35"
nalgebra = "=0.35.0"
