[package]
name = "audio_bridge"
version = "0.1.0"
edition = "2021"
publish = false

[dependencies]
cpal = "0.15"
egui = "0.27"
egui_plot = "0.27"
fcwt = "0.1.3"
js-sys = "0.3"
log = "0.4"
wasm-bindgen = "0.2"
wasm-bindgen-futures = "0.4"
web-sys = { version = "0.3", features = ["AudioContext", "AudioDestinationNode", "AudioNode", "AudioWorklet", "AudioWorkletNode", "AudioWorkletNodeOptions", "MediaDevices", "MediaStream", "MediaStreamAudioSourceNode", "MediaStreamConstraints", "Navigator", "Window", "Worklet"] }
