[package]
name = "lithos"
version = "0.1.0"
edition = "2021"
publish = false

[dependencies]
argparse = "*"
env_logger = "*"
ipnetwork = "*"
libc = "0.2"
log = "0.4"
quire = "*"
rustc-serialize = "0.3"
scan_dir = "*"
serde = { version = "1", features = ["derive"] }
serde_json = "1"
time = "0.1"
