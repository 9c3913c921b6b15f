[package]
name = "rust_audio_engine"
version = "0.1.0"
edition = "2021"

[dependencies]
lockfree = "0.5"
