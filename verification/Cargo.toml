[package]
name = "fs_guard"
version = "0.1.0"
edition = "2021"
publish = false

[dependencies]
chrono = { version = "0.4", default-features = false, features = ["std", "clock", "serde"] }
notify = { version = "6", default-features = false }
serde = { version = "1", features = ["derive"] }
tauri = { version = "2", default-features = false }
tokio = { version = "1", default-features = false, features = ["fs", "sync", "rt"] }
