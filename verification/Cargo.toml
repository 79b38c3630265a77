[package]
name = "systex"
version = "0.1.0"
edition = "2021"
publish = false

[dependencies]
serde = { version = "1", features = ["derive"] }
thiserror = "2"
accessibility-sys = "0.1.3"
core-foundation = "0.10"
core-foundation-sys = "0.8"
core-graphics = "0.25"
objc2-app-kit = { version = "0.3", default-features = false, features = ["std", "NSWorkspace", "NSRunningApplication"] }
objc2-foundation = { version = "0.3", default-features = false, features = ["std", "NSURL", "NSString"] }
tauri = { version = "2", default-features = false, features = ["wry", "tray-icon"] }
