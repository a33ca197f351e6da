[package]
name = "tarjama"
version = "0.1.0"
edition = "2021"
publish = false

[dependencies]
anyhow = "=1.0.104"
serde = { version = "=1.0.229", features = ["derive"] }
serde_json = "=1.0.154"
tokenizers = { version = "=0.21.4", default-features = false, features = ["fancy-regex"] }
ort = { version = "=2.0.0-rc.10", default-features = false, features = ["std"] }
whisper-rs = { version = "=0.13.2", features = ["whisper-cpp-log"] }
ash = "=0.38.0+1.3.281"
open = "=5.4.5"
rfd = { version = "=0.15.4", default-features = false, features = ["gtk3"] }
iced = { version = "=0.13.1", default-features = false, features = ["tiny-skia", "tokio"] }
log = "=0.4.35"
