[package]
name = "staged"
version = "0.1.0"
edition = "2021"
publish = false

[dependencies]
uuid = { version = "*", features = ["v4"] }
git2 = { version = "*", default-features = false }
rusqlite = { version = "*", features = ["bundled"] }
notify = "*"
notify-debouncer-full = "*"
ignore = "*"
