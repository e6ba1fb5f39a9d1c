[package]
name = "bittorrent_rustico"
version = "0.1.0"
edition = "2021"
publish = false

[dependencies]
sha1 = "0.10"
rand = "0.8"
log = "0.4"
pretty_env_logger = "0.5"
native-tls = "0.2"
