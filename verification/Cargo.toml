[package]
name = "platform_api"
version = "0.1.0"
edition = "2021"
publish = false

[dependencies]
serde = { version = "1", features = ["derive"] }
windows = { version = "0.58", features = ["Win32_Foundation", "Win32_Globalization", "Win32_System_DataExchange", "Win32_System_Memory"] }
