[package]
name = "dome"
version = "0.1.0"
edition = "2021"
publish = false

[dependencies]
anyhow = "1"
kurbo = "0.11"
peniko = "0.2"
pollster = "0.3"
raw-window-handle = "0.6"
vello = "0.3"
winit = "0.30"
