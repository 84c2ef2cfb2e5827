[package]
name = "becompose"
version = "0.1.0"
edition = "2021"
publish = false

[dependencies]
bevy = { version = "=0.15.3", default-features = false, features = ["bevy_ui", "bevy_window"] }
generational-box = "=0.6.2"
