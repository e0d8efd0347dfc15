[package]
name = "elemental"
version = "0.5.0"
edition = "2021"
publish = false

[dependencies]
colored = "2"
plotlib = "0.5"
