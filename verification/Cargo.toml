[package]
name = "ecs_inspector"
version = "0.1.0"
edition = "2021"
publish = false

[dependencies]
bevy_app = "0.9"
bevy_asset = "0.9"
bevy_core = "0.9"
bevy_ecs = "0.9"
bevy_hierarchy = "0.9"
bevy_reflect = "0.9"
egui = "0.20"
pretty-type-name = "1"
