[package]
name = "typhoon_rs"
version = "0.1.0"
edition = "2021"
publish = false

[dependencies]
anyhow = "1"
async-trait = "0.1"
chrono = "0.4"
crossbeam-channel = "0.5"
flexaudio = "*"
serde = { version = "1", features = ["derive"] }
tokio = { version = "=1.36.0", features = ["fs", "io-std", "io-util", "macros", "rt-multi-thread", "signal", "sync"] }
toml = "0.8"
tracing = "0.1"
windows-capture = "1.5"
