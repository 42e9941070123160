[package]
name = "liquid-metal"
version = "0.1.0"
edition = "2021"
publish = false

[dependencies]
gethostname = "=1.1.0"
glow = "=0.18.0"
objc2 = "=0.6.5"
sdl2 = "=0.38.0"
socket2 = { version = "=0.6.5", features = ["all"] }
windows-sys = { version = "=0.61.2", features = ["Win32_Foundation", "Win32_Graphics_Dwm", "Win32_Graphics_Gdi", "Win32_UI_WindowsAndMessaging"] }
x11rb = { version = "=0.14.0", features = ["randr", "shape"] }
