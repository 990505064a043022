[package]
name = "lbranches"
version = "0.1.0"
edition = "2021"
publish = false

[dependencies]
lsystem = "*"
async-std = "1"
bevy = { version = "0.10", default-features = false, features = ["bevy_asset", "bevy_core_pipeline", "bevy_render", "bevy_sprite", "bevy_winit", "png", "x11"] }
bevy_prototype_lyon = "0.8"
yew = { version = "0.20", features = ["csr"] }
stylist = { version = "0.12", features = ["yew_integration"] }
web-sys = { version = "0.3", features = ["Window", "Document"] }
