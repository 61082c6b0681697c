[package]
name = "by2_build"
version = "0.1.0"
edition = "2021"
publish = false

[dependencies]
pkg-config = "*"
