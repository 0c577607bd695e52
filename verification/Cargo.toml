[package]
name = "bevy_rhai"
version = "0.1.0"
edition = "2021"
publish = false

[dependencies]
anyhow = "1"
bevy = { version = "=0.10.1", default-features = false, features = ["bevy_asset"] }
rhai = "*"
serde = { version = "1", features = ["derive"] }
