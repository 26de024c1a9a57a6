[package]
name = "xd_tts"
version = "0.1.0"
edition = "2021"
publish = false

[dependencies]
anyhow = "=1.0.104"
clap = { version = "=4.6.7", features = ["derive"] }
csv = "=1.4.0"
deunicode = "=1.6.2"
hound = "=3.5.1"
ndarray = "=0.17.2"
ndarray-npy = "=0.10.0"
num2words = "=1.2.0"
ort = { version = "=2.0.0-rc.15", default-features = false, features = ["std", "ndarray", "load-dynamic"] }
serde = { version = "=1.0.229", features = ["derive"] }
serde_json = "=1.0.154"
ssml-parser = "=0.3.0"
tracing = "=0.1.44"
tracing-subscriber = { version = "=0.3.23", features = ["env-filter"] }
unicode-segmentation = "=1.13.3"
