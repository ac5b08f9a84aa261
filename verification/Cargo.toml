[package]
name = "quotaglass"
version = "0.1.0"
edition = "2021"
publish = false

[dependencies]
serde = { version = "1", features = ["derive"] }
serde_json = { version = "1", features = ["float_roundtrip"] }
notify = "*"
tauri = { version = "2", default-features = false }
tauri-plugin-global-shortcut = "2"
objc2-app-kit = "*"
objc2-service-management = "*"
