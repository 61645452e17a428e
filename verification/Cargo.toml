[package]
name = "neuterm"
version = "0.1.0"
edition = "2021"
publish = false

[dependencies]
regex = "1"
uuid = { version = "1", features = ["v4"] }
serde = { version = "1", features = ["derive"] }
serde_yaml = "0.9"
serde_json = "1"
thiserror = "1"
anyhow = "1"
tracing = "0.1"
tracing-subscriber = { version = "0.3", features = ["env-filter"] }
clap = { version = "4", features = ["derive"] }
dirs = "5"
parking_lot = "0.12"
vte = "0.13"
portable-pty = "0.8"
fontdue = "0.9"
softbuffer = { version = "0.4", default-features = false, features = ["x11"] }
winit = { version = "0.30", default-features = false, features = ["x11", "rwh_06"] }
arboard = { version = "3", default-features = false }
tokio = { version = "1", features = ["rt-multi-thread"] }
reqwest = { version = "0.12", default-features = false, features = ["json", "stream"] }
futures-util = "0.3"
