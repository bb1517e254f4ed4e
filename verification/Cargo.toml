[package]
name = "leafish"
version = "0.1.0"
edition = "2021"
publish = false

[dependencies]
byteorder = "1"
sha1 = "0.10"
serde_json = "1"
reqwest = { version = "0.11", features = ["blocking"] }
dirs = "5"
log = "0.4"
parking_lot = "0.12"
bevy_ecs = "0.9"
winit = "0.29"
