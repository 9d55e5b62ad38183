[package]
name = "zerofbuf"
version = "0.1.0"
edition = "2021"
publish = false

[dependencies]
anyhow = "1"
clap = { version = "4", features = ["derive"] }
dirs = "5"
notify = "6"
rand = "0.8"
serde = { version = "1", features = ["derive"] }
serde_json = "1"
shell-words = "1"
signal-hook = "0.3"
time = { version = "0.3", features = ["formatting"] }
toml = "0.8"
x11rb = "0.13"
