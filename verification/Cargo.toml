[package]
name = "cpu_pin"
version = "0.1.0"
edition = "2021"
publish = false

[dependencies]
libc = "=0.2.191"
once_cell = "=1.21.4"
tokio = { version = "=1.54.1", features = ["process"] }
windows-sys = { version = "=0.61.2", features = ["Win32_Foundation", "Win32_System_Threading", "Win32_System_SystemInformation", "Win32_System_Diagnostics_ToolHelp"] }
