[package]
name = "perception"
version = "0.1.0"
edition = "2021"
publish = false

[dependencies]
bevy = { version = "0.15", default-features = false, features = ["bevy_asset", "bevy_color", "bevy_core_pipeline", "bevy_pbr", "bevy_render", "bevy_text", "bevy_ui", "bevy_window", "bevy_picking", "bevy_mesh_picking_backend"] }
bevy_rapier3d = { version = "0.28", default-features = false, features = ["dim3"] }
