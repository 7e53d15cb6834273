[package]
name = "clip_history"
version = "0.1.0"
edition = "2021"
publish = false

[dependencies]
clipboard-rs = { version = "0.3", default-features = false }
device_query = "4.0"
env_logger = { version = "0.11", default-features = false }
font-kit = "0.14"
image = { version = "0.25", default-features = false, features = ["png", "jpeg"] }
log = "0.4"
tray-icon = { version = "0.26", default-features = false }
