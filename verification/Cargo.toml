[package]
name = "langin"
version = "0.1.0"
edition = "2021"
publish = false

[dependencies]
lib-lexin = "*"
argin = "*"
