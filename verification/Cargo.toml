[package]
name = "logic_gate_simulator"
version = "0.1.0"
edition = "2021"
publish = false

[dependencies]
bevy = { version = "=0.18.1", default-features = false, features = ["std", "bevy_asset", "bevy_log", "bevy_camera", "bevy_color", "bevy_gizmos", "bevy_image", "bevy_mesh", "bevy_text", "bevy_window", "bevy_sprite", "bevy_render", "bevy_core_pipeline", "bevy_sprite_render", "bevy_ui", "bevy_ui_render", "default_font", "png"] }
bevy_pancam = { version = "=0.20.0", default-features = false }
