[package]
name = "aw_watcher_steam"
version = "0.1.0"
edition = "2021"
publish = false

[dependencies]
chrono = "0.4"
clap = { version = "4", features = ["derive"] }
env_logger = "*"
log = "0.4"
reqwest = { version = "*", features = ["blocking", "json"] }
serde = { version = "1", features = ["derive"] }
serde_json = "1"
steamlocate = "2"
sysinfo = "*"
toml = "*"
dirs = "*"
