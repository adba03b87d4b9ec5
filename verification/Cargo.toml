[package]
name = "jonotune"
version = "0.1.0"
edition = "2021"
publish = false

[dependencies]
ringbuf = "*"
cpal = "*"
egui = "*"
eframe = { version = "*", default-features = false, features = ["default_fonts", "glow", "persistence", "x11"] }
log = "*"
serde = { version = "1", features = ["derive"] }
web-sys = { version = "*", features = ["AnalyserNode", "AudioContext", "MediaDevices", "MediaStream", "MediaStreamAudioSourceNode", "MediaStreamConstraints", "Navigator", "Window", "AudioNode", "BaseAudioContext"] }
wasm-bindgen-futures = "*"
