[package]
name = "bevy_ascii_game"
version = "0.1.0"
edition = "2021"
publish = false

[dependencies]
swash = "0.1"
ron = "0.8"
serde = { version = "1", features = ["derive"] }
anyhow = "1"
itertools = "0.13"
bytemuck = "1"
bevy = { version = "0.15", default-features = false, features = ["bevy_asset", "bevy_render", "bevy_core_pipeline", "bevy_gizmos"] }
