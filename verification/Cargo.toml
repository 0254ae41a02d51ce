[package]
name = "rlua"
version = "0.15.0"
edition = "2021"
publish = false

[dependencies]
libc = "0.2"
