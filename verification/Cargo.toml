[package]
name = "aos4_combat_roller"
version = "0.1.0"
edition = "2021"
publish = false

[dependencies]
rand = "0.8"
serde = { version = "1", features = ["derive"] }
serde_json = "1"
rayon = "1"
log = "0.4"
env_logger = "0.11"
eframe = { version = "0.29", default-features = false, features = ["default_fonts", "glow", "x11"] }
egui = "0.29"
egui_plot = "0.29"
