[package]
name = "hestia"
version = "0.1.0"
edition = "2021"
publish = false

[dependencies]
winapi = { version = "0.3.9", features = ["minwindef", "winnt", "winuser", "psapi", "processthreadsapi", "memoryapi", "handleapi"] }
egui = "0.29"
eframe = { version = "0.29", default-features = false, features = ["default_fonts", "glow", "x11"] }
catppuccin-egui = { version = "5", default-features = false, features = ["egui29"] }
