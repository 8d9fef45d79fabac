[package]
name = "hex_picker"
version = "0.1.0"
edition = "2021"
publish = false

[dependencies]
ori = "0.1.0-alpha.1"
