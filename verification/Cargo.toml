[package]
name = "tray_proxy"
version = "0.1.0"
edition = "2021"
publish = false

[dependencies]
anyhow = "1"
futures = "0.3"
objc2 = "0.6"
objc2-app-kit = "0.3"
objc2-foundation = "0.3"
parking_lot = "0.12"
percent-encoding = "2.3"
tauri = { version = "2", default-features = false, features = ["tray-icon"] }
tokio = { version = "1", features = ["rt", "time"] }
