[package]
name = "ublock_installer"
version = "0.1.0"
edition = "2021"
publish = false

[dependencies]
eframe = { version = "=0.31.1", default-features = false, features = ["default_fonts", "glow", "x11"] }
