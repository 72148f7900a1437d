[package]
name = "cece"
version = "0.1.0"
edition = "2021"
publish = false

[dependencies]
calloop = "*"
png = "*"
rodio = "*"
smithay-client-toolkit = "*"
