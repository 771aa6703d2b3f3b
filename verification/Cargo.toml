[package]
name = "audio_helper"
version = "0.1.0"
edition = "2021"
publish = false

[dependencies]
hound = "3"
serde_json = "1"
tempfile = "3"
thiserror = "2"
