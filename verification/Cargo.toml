[package]
name = "vbar"
version = "0.1.0"
edition = "2021"
publish = false

[dependencies]
anyhow = "1"
gtk4 = { version = "*", features = ["v4_12"] }
gtk4-layer-shell = "*"
