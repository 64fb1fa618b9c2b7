[package]
name = "clip_llm"
version = "0.1.0"
edition = "2021"
publish = false

[dependencies]
arboard = "3"
base64 = "0.22"
chrono = "0.4"
global-hotkey = "0.7"
image = { version = "0.25", default-features = false, features = ["png", "jpeg", "gif", "webp", "bmp"] }
png = "0.18"
regex = "1"
reqwest = { version = "0.12", default-features = false, features = ["rustls-tls", "json", "blocking"] }
serde = { version = "1", features = ["derive"] }
serde_json = "1"
thiserror = "2"
tokio = { version = "1", features = ["rt", "time", "sync", "macros"] }
toml = "0.9"
toml_edit = "0.23"
tracing = "0.1"
tracing-subscriber = { version = "0.3", features = ["env-filter"] }
tray-icon = "0.21"
