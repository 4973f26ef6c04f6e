[package]
name = "dht"
version = "0.1.0"
edition = "2021"
publish = false

[dependencies]
md-5 = "*"
crc = "*"
rand = "*"
mini-moka = "*"
clap = { version = "*", features = ["derive"] }
serde = { version = "*", features = ["derive"] }
toml = "*"
log = "*"
log4rs = "*"
chrono = "*"
