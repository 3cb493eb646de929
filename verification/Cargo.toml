[package]
name = "tui_texture"
version = "0.1.0"
edition = "2021"
publish = false

[dependencies]
unicode-width = "*"
unicode-properties = "*"
rustybuzz = "*"
raqote = { version = "*", default-features = false }
bytemuck = "*"
ratatui = "0.29"
wgpu = "26"
