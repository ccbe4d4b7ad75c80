[package]
name = "helix_prompt"
version = "0.1.0"
edition = "2021"
publish = false

[dependencies]
unicode-segmentation = "1"
unicode-width = "0.1"
crossterm = "0.20"
