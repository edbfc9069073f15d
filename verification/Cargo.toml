[package]
name = "audio_viewer"
version = "0.1.0"
edition = "2021"
publish = false

[dependencies]
anyhow = "1"
ebur128 = "*"
futures = "0.3"
log = "0.4"
postage = "*"
rodio = { version = "*", default-features = false, features = ["wav", "mp3", "flac", "vorbis"] }
