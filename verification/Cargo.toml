[package]
name = "chess_trainer"
version = "0.1.0"
edition = "2021"
publish = false

[dependencies]
shakmaty = "=0.29.4"
bevy = { version = "=0.18.1", default-features = false, features = ["std", "bevy_asset", "bevy_log", "bevy_window", "default_font", "bevy_camera", "bevy_color", "bevy_image", "bevy_mesh", "bevy_shader", "bevy_text", "bevy_render", "bevy_core_pipeline", "bevy_pbr", "bevy_light", "bevy_ui", "bevy_ui_render", "bevy_picking", "mesh_picking"] }
