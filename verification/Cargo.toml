[package]
name = "wayvr_dictation"
version = "0.1.0"
edition = "2021"
publish = false

[dependencies]
log = "=0.4.35"
pipewire = "=0.9.2"
whisper-rs = "0.16"
