[package]
name = "screenvidcap"
version = "0.1.0"
edition = "2021"
publish = false

[dependencies]
clap = { version = "=4.6.7", features = ["derive"] }
fast_image_resize = "=2.7.3"
screenshots = "=0.5.4"
gif = "=0.12.0"
png = "=0.17.16"
windows = { version = "=0.48.0", features = ["Win32_Foundation", "Win32_System_LibraryLoader", "Win32_UI_WindowsAndMessaging", "Win32_Graphics_Gdi"] }
