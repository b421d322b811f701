[package]
name = "hatch_blink_search"
version = "0.1.0"
edition = "2021"
publish = false

[dependencies]
serde = { version = "1", features = ["derive"] }
serde_json = "1"
rodio = { version = "*", default-features = false }
windows-sys = { version = "*", features = ["Win32_System_Diagnostics_Debug"] }
