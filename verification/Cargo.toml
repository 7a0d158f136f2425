[package]
name = "sdroxide_input"
version = "0.1.0"
edition = "2021"
publish = false

[dependencies]
crossbeam-channel = "0.5"
libc = "0.2"
serde = { version = "1", features = ["derive"] }
windows-sys = { version = "0.59", features = ["Win32_Foundation", "Win32_Devices_DeviceAndDriverInstallation", "Win32_Storage_FileSystem", "Win32_System_IO", "Win32_System_Threading", "Win32_Security"] }

[dev-dependencies]
serde_json = "1"
