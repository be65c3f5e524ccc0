[package]
name = "multiping"
version = "0.1.0"
edition = "2021"
publish = false

[dependencies]
chrono = { version = "=0.4.45", default-features = false, features = ["clock", "std"] }
eframe = { version = "=0.25.0", default-features = false, features = ["default_fonts", "glow", "x11"] }
egui_plot = "=0.25.0"
surge-ping = "=0.8.4"
tokio = { version = "=1.43.4", features = ["net", "rt-multi-thread", "time"] }
