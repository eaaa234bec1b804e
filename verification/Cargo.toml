[package]
name = "steam_server_disable"
version = "0.1.0"
edition = "2021"
publish = false

[dependencies]
iptables = "*"
regex = "*"
serde = { version = "*", features = ["derive"] }
serde_json = "*"
clap = { version = "*", features = ["derive"] }
icmp-socket = "*"
log = "*"
env_logger = "*"
