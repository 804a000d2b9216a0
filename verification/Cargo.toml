[package]
name = "ignition"
version = "0.1.0"
edition = "2021"
publish = false

[dependencies]
image = { version = "0.25", default-features = false, features = ["png", "jpeg", "gif", "bmp", "ico", "webp", "tiff", "pnm", "tga", "qoi"] }
ico = "0.3"
resvg = "0.44"
sha2 = "0.10"
base64 = "0.22"
rust-ini = "0.20"
serde = { version = "1", features = ["derive"] }
serde_json = "1"
crossbeam = "0.8"
eyre = "0.6"
dirs = "5"
xdg = "2.5"
tracing = "0.1"
tracing-subscriber = { version = "0.3", features = ["env-filter"] }
chrono = { version = "0.4", features = ["serde"] }
fuzzy-matcher = "0.3"
strsim = "0.11"
fork = "0.2"
