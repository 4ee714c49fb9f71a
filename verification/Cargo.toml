[package]
name = "as_r11_ultra_battery_tray"
version = "0.1.0"
edition = "2021"
publish = false

[dependencies]
anyhow = "1"
tracing = "0.1"
tracing-subscriber = { version = "0.3", features = ["env-filter", "fmt"] }
hidapi = "*"
winreg = "*"
tray-icon = "*"
tao = "*"
windows = { version = "*", features = ["Win32_Foundation", "Win32_System_Threading", "Win32_System_Console", "Win32_Security"] }
