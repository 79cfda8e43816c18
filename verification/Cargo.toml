[package]
name = "cli_manager"
version = "0.1.0"
edition = "2021"
publish = false

[dependencies]
serde = { version = "1", features = ["derive"] }
chrono = "0.4"
sysinfo = "*"
local-ip-address = "0.6"
windows-sys = { version = "0.59", features = ["Win32_Foundation", "Win32_System_Performance"] }
