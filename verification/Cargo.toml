[package]
name = "spitfire"
version = "0.1.0"
edition = "2021"
publish = false

[dependencies]
rand = "0.8"
xkbcommon = "0.8"
xkeysym = "0.2"
serde = { version = "1", features = ["derive"] }
serde_json = "1"
mlua = { version = "0.10", features = ["lua54", "vendored"] }
tracing = "0.1"
tracing-subscriber = { version = "0.3", features = ["env-filter"] }
smithay = { version = "0.7", default-features = false, features = ["desktop", "wayland_frontend", "renderer_gl", "backend_winit", "xwayland"] }
