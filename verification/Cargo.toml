[package]
name = "pomotask"
version = "0.1.0"
edition = "2021"
publish = false

[dependencies]
chrono = "*"
dirs = "*"
fs2 = "*"
notify-rust = "*"
rodio = "*"
