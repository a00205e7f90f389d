[package]
name = "enum_toggles"
version = "0.1.0"
edition = "2021"
publish = false

[dependencies]
bitvec = "1"
yaml-rust = "0.4"
strum = "*"
strum_macros = "*"
