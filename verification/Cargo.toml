[package]
name = "endless_sketch"
version = "0.1.0"
edition = "2021"
publish = false

[dependencies]
anyhow = "=1.0.104"
eframe = { version = "=0.37.0", default-features = false, features = ["default_fonts", "glow", "x11"] }
log = "=0.4.35"
num-bigint = { version = "=0.4.8", features = ["serde"] }
num-traits = "=0.2.19"
rfd = { version = "=0.17.2", default-features = false, features = ["xdg-portal"] }
serde = { version = "=1.0.229", features = ["derive"] }
serde_json = "=1.0.154"
uuid = { version = "=1.29.0", features = ["v4"] }
windows-sys = { version = "=0.61.2", features = ["Win32_UI_Input_KeyboardAndMouse"] }
