[package]
name = "midi_flipper"
version = "0.1.0"
edition = "2021"
publish = false

[dependencies]
midi-msg = "*"
rustysynth = "*"
serde = { version = "1", features = ["derive"] }
egui = "*"
eframe = { version = "*", default-features = false, features = ["glow", "default_fonts", "x11"] }
egui_extras = "*"
egui-toast = "*"
rodio = { version = "*", default-features = false, features = ["playback"] }
