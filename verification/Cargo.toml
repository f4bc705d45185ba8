[package]
name = "auto_check_rs"
version = "0.1.0"
edition = "2021"
publish = false

[dependencies]
ignore = "0.4"
notify = "4"
docopt = "1"
env_logger = "*"
log = "*"
