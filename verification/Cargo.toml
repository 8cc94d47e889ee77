[package]
name = "tv"
version = "0.1.0"
edition = "2021"
publish = false

[dependencies]
pulldown-cmark = { version = "0.13.6", default-features = false }
font8x8 = "0.3.1"
image = { version = "0.25.10", default-features = false }
winit = "0.30.13"
softbuffer = "0.4.8"
arboard = { version = "3.7.0", default-features = false }
