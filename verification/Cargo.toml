[package]
name = "ffmpeg_caster"
version = "0.1.0"
edition = "2021"
publish = false

[dependencies]
zip = { version = "0.6", default-features = false, features = ["deflate"] }
tokio = { version = "1", features = ["rt-multi-thread", "process", "net", "sync", "time", "io-util", "macros"] }
ureq = { version = "2", features = ["tls", "json"] }
serde = { version = "1", features = ["derive"] }
windows = { version = "0.62", features = ["Win32_Foundation", "Win32_Graphics_Direct3D", "Win32_Graphics_Direct3D11", "Win32_Graphics_Dxgi", "Win32_Graphics_Dxgi_Common", "Win32_Security", "Win32_System_Threading"] }
