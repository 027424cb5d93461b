[package]
name = "quic_video_relay"
version = "0.1.0"
edition = "2021"
publish = false

[dependencies]
bytes = "=1.12.1"
anyhow = "=1.0.104"
tokio = { version = "=1.54.1", features = ["full"] }
quinn = "=0.10.2"
rustls = "=0.21.12"
rustls-pemfile = "=1.0.4"
rcgen = "=0.11.3"
tracing = "=0.1.44"
tracing-subscriber = { version = "=0.3.23", features = ["env-filter"] }
moq-lite = "=0.9.6"
moq-native = "=0.9.6"
wtransport = "=0.7.2"
async-trait = "=0.1.92"
