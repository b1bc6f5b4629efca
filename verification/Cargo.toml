[package]
name = "cc_limit"
version = "0.1.0"
edition = "2021"
publish = false

[dependencies]
once_cell = "1"
serde_json = "1"
winapi = { version = "0.3", features = ["minwindef", "windef", "errhandlingapi", "libloaderapi", "shellapi", "wingdi", "winhttp", "winuser"] }
