[package]
name = "flatpak_unsandbox"
version = "0.1.0"
edition = "2021"
publish = false

[dependencies]
clap = { version = "4", features = ["derive"] }
configparser = "3"
log = "0.4"
simple_logger = "*"
thiserror = "1"
zbus = "4"
