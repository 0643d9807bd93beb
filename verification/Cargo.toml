[package]
name = "platformer_core"
version = "0.1.0"
edition = "2021"
publish = false

[dependencies]
bevy = { version = "=0.17.3", default-features = false, features = ["std", "bevy_state"] }
avian2d = { version = "=0.4.1", default-features = false, features = ["2d", "f32", "parry-f32"] }
bevy_ecs_ldtk = { version = "=0.13.0", default-features = false, features = ["derive", "internal_levels"] }
bevy-tnua = { version = "=0.26.0", default-features = false }
bevy-tnua-avian2d = { version = "=0.8.0", default-features = false }
rand = "=0.9.5"
