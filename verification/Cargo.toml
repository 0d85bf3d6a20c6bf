[package]
name = "backup_warden"
version = "0.1.0"
edition = "2021"
publish = false

[dependencies]
chrono = "0.4"
notify = "6"
serde = { version = "1", features = ["derive"] }
serde_json = "1"
