[package]
name = "monitor-ctrl"
version = "0.1.0"
edition = "2021"
publish = false

[dependencies]
anyhow = "1"
auto-launch = "0.5"
ddc = "0.2"
ddc-hi = "0.4"
eframe = { version = "0.31", default-features = false, features = ["glow", "default_fonts"] }
egui = { version = "0.31", default-features = false, features = ["default_fonts"] }
env_logger = { version = "0.11", default-features = false }
log = "0.4"
once_cell = "1"
serde = { version = "1", features = ["derive"] }
toml = "0.8"
tray-icon = { version = "0.21", default-features = false }
