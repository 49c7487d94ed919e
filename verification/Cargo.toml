[package]
name = "wincapture"
version = "0.1.0"
edition = "2021"
publish = false

[dependencies]
garb = "*"
png = "*"
base64-turbo = "*"
anyhow = "1"
tokio = { version = "1", features = ["rt", "rt-multi-thread", "sync", "time", "macros"] }
rmcp = { version = "*", features = ["server", "transport-io", "macros"] }
schemars = "1"
serde = { version = "1", features = ["derive"] }
sonic-rs = "*"
sysinfo = "*"
tracing = "0.1"
tracing-subscriber = { version = "0.3", features = ["env-filter"] }
mimalloc = "*"
windows-capture = "*"
windows = { version = "*", features = ["Foundation", "Graphics_Capture", "Graphics_DirectX", "Graphics_DirectX_Direct3D11", "Win32_Foundation", "Win32_Graphics_Direct3D", "Win32_Graphics_Direct3D11", "Win32_Graphics_Dxgi", "Win32_System_Com", "Win32_System_WinRT", "Win32_System_WinRT_Direct3D11", "Win32_System_WinRT_Graphics_Capture", "Win32_System_Diagnostics_ToolHelp", "Win32_UI_WindowsAndMessaging"] }
