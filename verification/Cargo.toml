[package]
name = "bevy_status_effects"
version = "0.1.0"
edition = "2021"
publish = false

[dependencies]
bevy_app = "0.16"
bevy_ecs = "0.16"
bevy_reflect = "0.16"
bevy_time = "0.16"
darling = "0.20"
proc-macro2 = "1"
quote = "1"
syn = "2"
