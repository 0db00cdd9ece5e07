[package]
name = "malakal"
version = "0.1.0"
edition = "2021"
publish = false

[dependencies]
anyhow = "*"
chrono = "*"
chrono-tz = "*"
dirs = "*"
env_logger = "*"
filetime = "*"
ical = "*"
ics = "*"
intervaltree = "*"
log = "*"
notify-rust = "*"
regex = "*"
rusqlite = { version = "*", features = ["bundled"] }
serde = { version = "*", features = ["derive"] }
serde_with = "*"
sysinfo = "*"
timer = "*"
toml = "*"
uuid = { version = "*", features = ["v4"] }
