[package]
name = "bb_scrape"
version = "0.4.0"
edition = "2021"
publish = false

[dependencies]
eframe = { version = "0.32", default-features = false, features = ["default_fonts", "glow", "x11", "wayland"] }
egui = "0.32"
egui_extras = "0.32"
image = { version = "0.25", default-features = false, features = ["png"] }
color-eyre = "0.6"
