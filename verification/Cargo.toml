[package]
name = "neothesia"
version = "0.1.0"
edition = "2021"
publish = false

[dependencies]
midly = "=0.5.3"
midir = "=0.10.4"
winit = "=0.30.13"
wgpu = "=30.0.1"
rfd = "0.15"
