[package]
name = "sliglight"
version = "0.1.0"
edition = "2021"
publish = false

[dependencies]
serde = { version = "=1.0.229", features = ["derive"] }
toml = "=0.9.12"
confy = "=2.0.0"
rusb = "=0.9.4"
clap = { version = "=4.6.7", features = ["derive"] }
thiserror = "=2.0.21"
log = "=0.4.35"
env_logger = { version = "=0.11.11", default-features = false }
tokio = { version = "=1.54.1", features = ["time", "sync", "rt", "macros"] }
iced = { version = "=0.14.0", default-features = false, features = ["tiny-skia", "canvas", "tokio", "x11"] }
zbus = "=5.19.0"
ksni = "=0.3.7"
libpulse-binding = "=2.30.1"
resvg = { version = "=0.45.1", default-features = false }
