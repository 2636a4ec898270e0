[package]
name = "cap_rendering"
version = "0.1.0"
edition = "2021"
publish = false

[dependencies]
tokio = { version = "1", default-features = false, features = ["sync"] }
uiautomation = "*"
windows = { version = "*", features = ["Win32_Foundation", "Win32_UI_WindowsAndMessaging"] }
