[package]
name = "multi-track-split"
version = "0.1.0"
edition = "2021"
publish = false

[dependencies]
flacenc = "=0.5.1"
iced = { version = "=0.13.1", default-features = false, features = ["canvas", "tiny-skia", "tokio"] }
serde = { version = "1", features = ["derive"] }
serde_json = "1"
symphonia = { version = "=0.5.5", default-features = false, features = ["flac", "pcm", "wav"] }
