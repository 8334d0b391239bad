[package]
name = "open_lights_core"
version = "0.1.0"
edition = "2021"
publish = false

[dependencies]
fastrand = "=2.5.0"
hound = "=3.5.1"
lofty = "=0.25.4"
walkdir = "=2.5.0"
