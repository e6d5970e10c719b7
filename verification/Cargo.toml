[package]
name = "gigascli"
version = "0.1.0"
edition = "2021"
publish = false

[dependencies]
walkdir = "=2.5.0"
self_update = "*"
