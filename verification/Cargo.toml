[package]
name = "repohub"
version = "0.1.0"
edition = "2021"
publish = false

[dependencies]
comrak = "*"
gix = "*"
actix-web = "*"
futures-util = "*"
env_logger = "*"
