[package]
name = "ping_pong"
version = "0.1.0"
edition = "2021"
publish = false

[dependencies]
clap = "4"
getopts = "0.2"
rand = "0.8"
