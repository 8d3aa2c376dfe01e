[package]
name = "syslog_sniffer"
version = "0.1.0"
edition = "2021"
publish = false

[dependencies]
clap = { version = "4", features = ["derive"] }
env_logger = "*"
log = "0.4"
pcap = "*"
regex = "1"
serde = { version = "1", features = ["derive"] }
serde_json = "1"
