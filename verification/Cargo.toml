[package]
name = "transcribe"
version = "0.1.0"
edition = "2021"
publish = false

[dependencies]
fast2s = "*"
num_cpus = "*"
hound = "*"
serde = { version = "*", features = ["derive"] }
serde_json = "*"
chrono = "*"
anyhow = "*"
hex = "*"
aes = "*"
cbc = "*"
crypto-hash = "*"
whisper-rs = "*"
