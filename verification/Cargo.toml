[package]
name = "trade_watch"
version = "0.1.0"
edition = "2021"
publish = false

[dependencies]
uuid = { version = "*", features = ["v4"] }
chrono = "*"
serde = { version = "*", features = ["derive"] }
serde_json = "*"
config = { version = "*", default-features = false, features = ["json"] }
notify-debouncer-mini = "*"
