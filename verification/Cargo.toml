[package]
name = "mictrayrs"
version = "0.1.0"
edition = "2021"
publish = false

[dependencies]
dirs = "*"
global-hotkey = "0.8"
slint = { version = "1", default-features = false, features = ["std", "compat-1-2"] }
tray-icon = { version = "0.25", default-features = false }
winreg = "0.56"
windows = { version = "0.62", features = ["Win32_Foundation", "Win32_Media_Audio", "Win32_Media_Audio_Endpoints", "Win32_System_Com", "Win32_System_Com_StructuredStorage", "Win32_System_Variant", "Win32_Devices_FunctionDiscovery", "Win32_UI_Shell_PropertiesSystem"] }
