[package]
name = "upaint"
version = "0.1.0"
edition = "2021"
publish = false

[dependencies]
ratatui = "*"
crossterm = "*"
nalgebra = "*"
hsv = "*"
dirs = "*"
anyhow = "*"
