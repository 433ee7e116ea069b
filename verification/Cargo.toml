[package]
name = "hteapot"
version = "1.1.2"
edition = "2021"
publish = false

[dependencies]
libc = "0.2"
