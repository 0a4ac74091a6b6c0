[package]
name = "usniffer"
version = "0.1.0"
edition = "2021"
publish = false

[dependencies]
pnet = "=0.35.0"
chrono = "0.4"
eframe = { version = "=0.32.3", default-features = false, features = ["default_fonts", "glow", "x11"] }
egui_plot = "=0.33.0"
