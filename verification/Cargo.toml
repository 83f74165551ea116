[package]
name = "pyramid_player"
version = "0.1.0"
edition = "2021"
publish = false

[dependencies]
anyhow = "1"
clap = "2"
rodio = "0.11"
sysfs_gpio = "0.5"
