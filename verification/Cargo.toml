[package]
name = "xplane-gdl90"
version = "0.1.0"
edition = "2021"
publish = false

[dependencies]
gdl90 = "*"
humantime = "*"
serde = { version = "1", features = ["derive"] }
serde_json = "1"
ron = "*"
anyhow = "1"
log = "0.4"
simplelog = "*"
uom = "*"
egui = "*"
egui_extras = "*"
pastey = "*"
