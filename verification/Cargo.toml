[package]
name = "wireguard_configure"
version = "0.1.0"
edition = "2021"
publish = false

[dependencies]
ipnet = "2"
structopt = "0.3"
atty = "0.2"
prettytable-rs = "*"
