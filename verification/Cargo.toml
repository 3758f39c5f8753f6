[package]
name = "syber"
version = "0.1.0"
edition = "2021"
publish = false

[dependencies]
anyhow = "1"
bytes = "1"
dirs = "5"
egui = "0.29"
hex = "0.4"
openh264 = "0.6"
rand = "0.8"
rcgen = "0.13"
ring = "0.17"
serde = { version = "1", features = ["derive"] }
serde_json = "1"
tokio = { version = "1", features = ["full"] }
tracing = "0.1"
tracing-subscriber = { version = "0.3", features = ["env-filter"] }
