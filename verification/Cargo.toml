[package]
name = "iterm2-rs"
version = "0.1.0"
edition = "2021"
publish = false

[dependencies]
alacritty_terminal = "*"
anyhow = "1"
arboard = "*"
env_logger = "*"
log = "0.4"
portable-pty = "*"
serde = { version = "1", features = ["derive"] }
toml = "*"
