[package]
name = "http_server"
version = "0.2.0"
edition = "2021"
publish = false

[dependencies]
httparse = "*"
toml = "*"
clap = "*"
env_logger = "*"
log = "*"
mime = "*"
mime_guess = "*"
