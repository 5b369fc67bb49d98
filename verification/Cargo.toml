[package]
name = "textspec"
version = "0.1.0"
edition = "2021"
publish = false

[dependencies]
sysinfo = "0.30"
serde = { version = "1", features = ["derive"] }
clap = { version = "4", features = ["derive"] }
wmi = "0.13"
windows = { version = "0.52", features = ["Win32_Foundation", "Win32_Graphics_Dxgi", "Win32_Graphics_Dxgi_Common"] }
