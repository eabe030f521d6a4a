[package]
name = "beat_timing"
version = "0.1.0"
edition = "2021"
publish = false

[dependencies]
bevy = { version = "=0.17.3", default-features = false, features = ["std", "async_executor", "multi_threaded", "bevy_asset", "bevy_camera", "bevy_color", "bevy_core_pipeline", "bevy_image", "bevy_log", "bevy_mesh", "bevy_render", "bevy_shader", "bevy_sprite", "bevy_sprite_render", "bevy_state", "bevy_window", "bevy_winit", "png", "x11"] }
bevy_asset_loader = "=0.24.0"
bevy_common_assets = { version = "=0.14.0", default-features = false, features = ["json"] }
inline_tweak = { version = "=1.2.5", features = ["derive"] }
log = "=0.4.34"
rand = "=0.9.5"
serde = { version = "=1.0.229", features = ["derive"] }
