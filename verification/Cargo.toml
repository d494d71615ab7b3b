[package]
name = "stego"
version = "0.1.0"
edition = "2021"
publish = false

[dependencies]
image = { version = "*", default-features = false, features = ["png", "jpeg", "bmp"] }
log = "0.4"
pretty_env_logger = "*"
structopt = "0.3"
