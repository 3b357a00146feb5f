[package]
name = "snapdown"
version = "0.1.0"
edition = "2021"
publish = false

[dependencies]
anyhow = "1"
chrono = { version = "0.4", default-features = false, features = ["clock"] }
circular-buffer = "=1.2.1"
csv = "=1.4.0"
eframe = { version = "0.31", default-features = false, features = ["default_fonts", "glow", "x11"] }
egui = { version = "0.31", default-features = false }
env_logger = { version = "0.11", default-features = false }
log = "0.4"
rayon = "1"
rfd = { version = "0.15", default-features = false, features = ["xdg-portal", "tokio"] }
ureq = "3"
