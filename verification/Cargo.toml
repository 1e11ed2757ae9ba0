[package]
name = "tianshu_bridge"
version = "0.1.0"
edition = "2021"
publish = false

[dependencies]
serde = { version = "1", features = ["derive"] }
serde_json = "1"
libc = "0.2"
tauri = { version = "2", default-features = false, features = ["tray-icon", "image-png"] }
