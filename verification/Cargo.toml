[package]
name = "lrg"
version = "0.2.0"
edition = "2021"
publish = false

[dependencies]
walkdir = "2"
clap = "2"
humansize = "1"
pathdiff = "0.2"
env_logger = "0.9"
log = "0.4"

[dev-dependencies]
fs-err = "2"
symlink = "0.1"
