[package]
name = "mailscan"
version = "0.1.0"
edition = "2021"
publish = false

[dependencies]
flate2 = "1"
rlua = "*"
walkdir = "2"
log = "0.4"
env_logger = "*"
failure = "0.1"
once_cell = "1"
parking_lot = "*"
serde = "1"
serde_derive = "1"
structopt = "0.3"
config = "*"
