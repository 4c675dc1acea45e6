[package]
name = "mrea_patch"
version = "0.1.0"
edition = "2021"
publish = false

[dependencies]
md5 = "*"
memmap = "*"

[dependencies.image]
version = "*"
default-features = false
features = ["png"]
