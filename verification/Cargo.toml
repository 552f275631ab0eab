[package]
name = "drivespeedrs"
version = "0.1.0"
edition = "2021"
publish = false

[dependencies]
rand = "0.9"
anyhow = "1"
clap = { version = "4", features = ["derive"] }
colored = "2"
comfy-table = "7"
dialoguer = "0.11"
indicatif = "0.17"
libc = "0.2"
sysinfo = "0.33"
