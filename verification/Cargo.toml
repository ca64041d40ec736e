[package]
name = "automass"
version = "0.1.0"
edition = "2021"
publish = false

[dependencies]
nalgebra = "=0.35.0"
clarabel = "=0.11.1"
eframe = { version = "=0.37.0", default-features = false, features = ["glow", "default_fonts", "x11"] }
egui_plot = "=0.38.0"
serde = { version = "1", features = ["derive"] }
serde_json = "1"
serialport = { version = "=4.10.1", default-features = false }
