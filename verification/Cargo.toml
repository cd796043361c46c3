[package]
name = "clip-extractor"
version = "0.1.0"
edition = "2021"
publish = false

[dependencies]
crossbeam-channel = "=0.5.17"
egui = "0.28"
rfd = { version = "0.14", default-features = false, features = ["xdg-portal", "async-std"] }
rodio = { version = "0.19", default-features = false }
symphonia = { version = "=0.5.5", features = ["all"] }
ureq = { version = "=2.12.1", default-features = false, features = ["tls"] }
whisper-rs = "=0.16.0"
