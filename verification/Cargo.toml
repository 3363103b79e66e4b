[package]
name = "dotfiles"
version = "0.1.0"
edition = "2021"
publish = false

[dependencies]
anyhow = "1"
clap = { version = "3.2", features = ["cargo"] }
crossterm = "0.25"
data-encoding = "2"
directories = "4"
env_logger = "0.9"
glob = "0.3"
inquire = "0.6"
log = "0.4"
rand = "0.8"
regex = "1"
ring = "0.17"
serde = { version = "1", features = ["derive"] }
toml = "0.5"
