[package]
name = "compositor_core"
version = "0.1.0"
edition = "2021"
publish = false

[dependencies]
serde = { version = "1", features = ["derive"] }
smithay = { version = "*", default-features = false, features = ["backend_drm"] }
tokio = { version = "1", default-features = false, features = ["sync"] }
uuid = "1"
