[package]
name = "bevy_prototype_networking_laminar"
version = "0.1.0"
edition = "2021"
publish = false

[dependencies]
bevy = { version = "=0.2.1", default-features = false }
bytes = "=1.12.1"
laminar = "=0.5.0"
notify = "=5.0.0-pre.2"
uuid = { version = "=1.29.0", features = ["v4"] }
