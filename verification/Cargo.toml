[package]
name = "toxxi"
version = "0.1.0"
edition = "2021"
publish = false

[dependencies]
unicode-width = "=0.2.3"
unicode-segmentation = "=1.13.3"
base64 = "=0.22.1"
regex = "=1.13.1"
qrcode = { version = "=0.14.1", default-features = false }
serde = { version = "=1.0.229", features = ["derive"] }
serde_json = "=1.0.154"
clap = { version = "=4.6.7", features = ["derive"] }
ratatui = "=0.30.2"
rand = "0.8"
chrono = { version = "0.4", features = ["serde"] }
