[package]
name = "zapret-gui"
version = "0.1.0"
edition = "2021"
publish = false

[dependencies]
dirs = "5"
serde = { version = "1", features = ["derive"] }
serde_json = "1"
sysinfo = "0.33"
windows = { version = "0.58", features = ["Win32_Foundation", "Win32_Security", "Win32_System_Threading", "Win32_UI_Shell", "Win32_UI_WindowsAndMessaging"] }
