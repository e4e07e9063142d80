[package]
name = "audio_converter"
version = "0.1.0"
edition = "2021"
publish = false

[dependencies]
hound = "3.5"
rubato = "0.15"
tempfile = "3"
tracing = "0.1"
rayon = "1"
tokio = { version = "1", features = ["rt"] }
