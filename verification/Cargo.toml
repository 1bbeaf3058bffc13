[package]
name = "mosaic"
version = "0.1.0"
edition = "2021"
publish = false

[dependencies]
clap = { version = "4", features = ["derive"] }
core-foundation = "0.9"
core-foundation-sys = "0.8"
core-graphics-types = "0.1"
env_logger = "*"
global-hotkey = "*"
libc = "0.2"
log = "0.4"
serde = { version = "1", features = ["derive"] }
signal-hook = "0.3"
toml = "*"
