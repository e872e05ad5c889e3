[package]
name = "gopro_merge"
version = "0.1.0"
edition = "2021"
publish = false

[dependencies]
structopt = "*"
rayon = "*"
indicatif = "*"
console = "*"
serde_json = "*"
crossbeam-channel = "*"
parking_lot = "*"
log = "*"
env_logger = "*"
color-backtrace = "*"
