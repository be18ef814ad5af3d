[package]
name = "ifshow"
version = "0.1.0"
edition = "2021"
publish = false

[dependencies]
anyhow = "1"
clap = { version = "4", features = ["derive"] }
ethtool = "*"
futures = "0.3"
libc = "0.2"
nix = { version = "*", features = ["ioctl", "socket", "net", "sched", "user", "fs"] }
owo-colors = "*"
pci-info = "*"
rtnetlink = "*"
smol_str = "*"
tokio = { version = "1", features = ["rt", "net", "time", "macros"] }
