[package]
name = "modchain"
version = "0.1.0"
edition = "2021"
publish = false

[dependencies]
semver = "1"
zip = { version = "*", default-features = false }
walkdir = "2"
directories = "*"
libloading = "*"
libc = "0.2"
