[package]
name = "plurimus"
version = "0.5.0"
edition = "2021"
publish = false

[dependencies]
unicode-width = "=0.2.3"
unicode-segmentation = "=1.13.3"
crossterm = { version = "=0.29.0", features = ["osc52"] }
ratatui-core = "=0.1.2"
ratatui-crossterm = "*"
bevy_color = "=0.20.1"
