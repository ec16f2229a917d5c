[package]
name = "astatine"
version = "0.1.0"
edition = "2021"
publish = false

[dependencies]
bevy = { version = "=0.10.1", default-features = false, features = ["bevy_asset", "bevy_core_pipeline", "bevy_render", "bevy_sprite", "bevy_winit", "x11"] }
bevy_asset_loader = "0.16"
bevy_ecs_tilemap = "0.10"
bevy_egui = { version = "0.20", default-features = false }
bevy_prototype_debug_lines = "0.10"
bevy_tileset = "0.7"
noise = "=0.8.2"
rand = "=0.8.8"
