[package]
name = "trading_ui_style"
version = "0.1.0"
edition = "2021"
publish = false

[dependencies]
egui = "0.31"
eframe = "0.31"
serde_json = "1"
tracing = "0.1"
winit = "0.30"
