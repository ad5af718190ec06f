[package]
name = "tubular"
version = "0.1.0"
edition = "2021"
publish = false

[dependencies]
midi-msg = "*"
eframe = { version = "*", default-features = false, features = ["glow", "x11"] }
jack = "*"
