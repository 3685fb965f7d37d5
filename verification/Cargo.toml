[package]
name = "aria"
version = "0.1.0"
edition = "2021"
publish = false

[dependencies]
anyhow = "1"
base64 = "0.22"
kira = "*"
log = "0.4"
osu-db = "*"
raw-window-handle = "0.6"
realm-db-reader = "*"
serde = { version = "1", features = ["derive"] }
serde_json = { version = "1", features = ["preserve_order"] }
windows = { version = "*", features = ["Win32_Foundation", "Win32_Graphics_Dwm", "Win32_Graphics_Gdi", "Win32_System_Threading", "Win32_UI_WindowsAndMessaging"] }
winit = "0.30"
winreg = "*"
zip = "*"
