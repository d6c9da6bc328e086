[package]
name = "voicebox"
version = "0.1.0"
edition = "2021"
publish = false

[dependencies]
cpal = "=0.15.3"
evdev = "=0.13.2"
keytap = "=0.4.0"
serde = { version = "1", features = ["derive"] }
serde_json = "1"
symphonia = { version = "=0.5.5", default-features = false, features = ["adpcm", "pcm", "wav"] }
tokio = { version = "1", features = ["rt"] }
wl-clipboard-rs = "=0.9.5"
