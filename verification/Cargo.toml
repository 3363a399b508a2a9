[package]
name = "wlang"
version = "0.1.0"
edition = "2021"
publish = false

[dependencies]
charon_ariadne = "*"
lazy_static = "1"
logos = "0.12"
regex = "1"
