[package]
name = "solium"
version = "0.1.0"
edition = "2021"
publish = false

[dependencies]
anyhow = "1"
smithay = { version = "0.7", default-features = false, features = ["desktop", "renderer_gl", "wayland_frontend"] }
tracing = "0.1"
