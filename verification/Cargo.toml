[package]
name = "codex-usage-monitor"
version = "0.1.0"
edition = "2021"
publish = false

[dependencies]
base64 = "0.22"
chrono = { version = "0.4", default-features = false, features = ["clock", "serde", "std"] }
directories = "6"
eframe = { version = "0.35", default-features = false, features = ["default_fonts", "glow", "x11"] }
open = "5"
serde = { version = "1", features = ["derive"] }
serde_json = "1"
thiserror = "2"
tokio = { version = "1", features = ["io-util", "macros", "process", "rt", "time"] }
tokio-util = "0.7"
url = "2"
uuid = { version = "1", features = ["serde", "v4"] }
