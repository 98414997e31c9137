[package]
name = "cp_model"
version = "0.1.0"
edition = "2021"
publish = false

[dependencies]
prost = "*"
libc = "*"
