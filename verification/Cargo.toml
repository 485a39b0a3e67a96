[package]
name = "cusk"
version = "0.1.0"
edition = "2021"
publish = false

[dependencies]
toml_edit = "0.22"
image = { version = "0.25", default-features = false, features = ["png", "jpeg"] }
fontdue = "0.9"
tracing = "0.1"
tracing-subscriber = { version = "0.3", features = ["env-filter"] }
smithay = { version = "0.7", default-features = false, features = ["backend_winit", "backend_egl", "backend_drm", "backend_gbm", "backend_libinput", "backend_session_libseat", "backend_udev", "desktop", "renderer_gl", "wayland_frontend"] }
wayland-scanner = "0.31"
winit = "0.30"
