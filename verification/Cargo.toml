[package]
name = "sorting_visualizer"
version = "0.1.0"
edition = "2021"
publish = false

[dependencies]
rand = "0.8"
eframe = { version = "0.22", default-features = false, features = ["default_fonts", "glow"] }
strum = "0.25"
strum_macros = "0.25"
