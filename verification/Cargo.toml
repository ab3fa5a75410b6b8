[package]
name = "ublkera"
version = "0.1.0"
edition = "2021"
publish = false

[dependencies]
anyhow = "1"
clap = { version = "4", features = ["derive"] }
daemonize = "*"
env_logger = "*"
ilog = "*"
io-uring = "*"
libc = "0.2"
libublk = "*"
log = "0.4"
nix = { version = "*", features = ["ioctl"] }
serde = { version = "1", features = ["derive"] }
serde_json = "1"
signal-hook = "*"
