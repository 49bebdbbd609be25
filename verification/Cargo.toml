[package]
name = "audio_plugins"
version = "0.1.0"
edition = "2021"
publish = false

[dependencies]
realfft = "3"
rustfft = "6"
