[package]
name = "openvictoria"
version = "0.1.0"
edition = "2021"
publish = false

[dependencies]
eframe = { version = "=0.27.2", default-features = false, features = ["glow"] }
egui = { version = "=0.27.2", default-features = false }
fluent = "=0.16.1"
unic-langid = "=0.9.6"
