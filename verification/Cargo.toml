[package]
name = "winget_automation"
version = "0.1.0"
edition = "2021"
publish = false

[dependencies]
thiserror = "*"
tray-item = "*"
windows-sys = { version = "0.52", features = ["Win32_Foundation", "Win32_UI_WindowsAndMessaging"] }
winreg = "*"
winrt-notification = "*"
