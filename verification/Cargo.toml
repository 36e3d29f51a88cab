[package]
name = "degen-music-library"
version = "0.1.0"
edition = "2021"
publish = false

[dependencies]
anyhow = "=1.0.104"
aws-sdk-s3 = { version = "=1.157.0", default-features = false, features = ["rt-tokio", "default-https-client"] }
crossterm = "=0.29.0"
keyring = { version = "=4.2.0", default-features = false }
ratatui = "=0.30.2"
rodio = { version = "=0.23.0", default-features = false, features = ["playback", "flac", "mp3", "mp4", "vorbis", "wav"] }
rustfft = "=6.4.1"
serde = { version = "=1.0.229", features = ["derive"] }
serde_json = "=1.0.154"
tempfile = "=3.27.0"
tokio = { version = "=1.54.1", features = ["full"] }
url = "=2.5.8"
zeroize = "=1.9.1"
