[package]
name = "oxipaint"
version = "0.1.0"
edition = "2021"
publish = false

[dependencies]
cairo-rs = "0.15"
gtk = "0.15"
