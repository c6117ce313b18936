[package]
name = "avatar_cache"
version = "0.1.0"
edition = "2021"
publish = false

[dependencies]
egui = "=0.26.2"
egui_extras = { version = "=0.26.2", features = ["svg"] }
ehttp = "=0.5.0"
image = { version = "=0.24.9", default-features = false, features = ["png", "jpeg"] }
poll-promise = { version = "0.3", features = ["tokio"] }
tokio = { version = "=1.44.2", features = ["rt-multi-thread", "fs", "macros"] }
