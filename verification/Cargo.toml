[package]
name = "keep_it_focused"
version = "0.1.0"
edition = "2021"
publish = false

[dependencies]
anyhow = "*"
chrono = "*"
clap = { version = "*", features = ["derive"] }
globset = "*"
kill_tree = { version = "*", features = ["blocking"] }
libc = "*"
log = "*"
procfs = "*"
serde = { version = "*", features = ["derive"] }
serde_json = "*"
serde_yaml = "*"
simple_logger = "*"
systemd-journal-logger = "*"
tokio = { version = "*", features = ["full"] }
uucore = { version = "*", features = ["entries"] }
