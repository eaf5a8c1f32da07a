[package]
name = "rficus"
version = "0.1.0"
edition = "2021"
publish = false

[dependencies]
rust-ini = "=0.21.3"
ureq = { version = "=3.5.1", default-features = false, features = ["native-tls", "platform-verifier"] }
egui = { version = "=0.34.3", default-features = false }
egui_extras = { version = "=0.34.3", default-features = false }
egui-winit = { version = "=0.34.3", default-features = false, features = ["clipboard", "x11"] }
egui_software_backend = "=0.0.3"
winit = { version = "=0.30.13", default-features = false, features = ["rwh_06", "x11"] }
softbuffer = { version = "=0.4.8", default-features = false, features = ["x11"] }
image = { version = "=0.25.10", default-features = false, features = ["png"] }
bytemuck = "=1.25.2"
raw-window-handle = "=0.6.2"
rfd = { version = "=0.17.2", default-features = false }
windows = { version = "=0.62.2", features = ["Win32_Foundation", "Win32_System_Com", "Win32_System_Ole", "Win32_System_Memory", "Win32_System_DataExchange", "Win32_System_SystemServices", "Win32_UI_Shell"] }
