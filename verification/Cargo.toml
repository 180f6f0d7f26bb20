[package]
name = "record_playback"
version = "0.1.0"
edition = "2021"
publish = false

[dependencies]
rand = "0.9.2"
ron = "0.10.1"
serde = "1.0.219"
