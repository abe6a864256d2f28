[package]
name = "library"
version = "0.1.0"
edition = "2021"
publish = false

[dependencies]
libc = "=0.2.191"
nom = "=7.1.3"
nom-unicode = "=0.3.0"
