[package]
name = "file_organizer"
version = "0.1.0"
edition = "2021"
publish = false

[dependencies]
anyhow = "1"
chrono = "0.4"
dirs = "*"
notify = "6.1"
notify-debouncer-mini = "0.4"
rusqlite = { version = "*", features = ["bundled"] }
