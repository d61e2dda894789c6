[package]
name = "opentui_core"
version = "0.1.0"
edition = "2021"
publish = false

[dependencies]
unicode-width = "*"
unicode-segmentation = "*"
crossterm = "*"
rustix = { version = "*", features = ["fs", "stdio"] }
yoga = "*"
