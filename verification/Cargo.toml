[package]
name = "talka"
version = "0.1.0"
edition = "2021"
publish = false

[dependencies]
anyhow = "=1.0.104"
serde = { version = "=1.0.229", features = ["derive"] }
serde_json = "=1.0.154"
parking_lot = "=0.12.5"
cpal = "=0.18.2"
rubato = "=0.16.2"
whisper-rs = "=0.16.0"
arboard = "=3.7.0"
enigo = "=0.6.1"
open = "=5.4.5"
reqwest = { version = "=0.13.5", features = ["stream"] }
tokio = { version = "=1.54.1", features = ["fs", "io-util", "rt", "macros"] }
futures-util = "=0.3.34"
tracing = "=0.1.44"
tracing-subscriber = "=0.3.23"
