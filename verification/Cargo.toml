[package]
name = "r357"
version = "0.1.0"
edition = "2021"
publish = false

[dependencies]
backoff = { version = "0.4", features = ["tokio"] }
bytemuck = "1"
clap = { version = "4", features = ["derive"] }
hostname = "0.4"
if-addrs = "*"
libpulse-binding = "2"
libpulse-simple-binding = "2"
mdns-sd = "*"
reqwest = { version = "0.12", features = ["blocking"] }
serde = { version = "1", features = ["derive"] }
symphonia = { version = "0.5", features = ["mp3"] }
thiserror = "2"
tokio = { version = "1", features = ["full"] }
tokio-util = "0.7"
tracing = "0.1"
tracing-journald = "0.3"
tracing-subscriber = { version = "0.3", features = ["env-filter"] }
warp = "0.3"
