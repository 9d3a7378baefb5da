[package]
name = "parabox"
version = "0.1.0"
edition = "2021"
publish = false

[dependencies]
num-rational = { version = "0.4", default-features = false }
color_space = "0.5"
crossterm = "0.26"
