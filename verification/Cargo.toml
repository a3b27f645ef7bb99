[package]
name = "virtnet"
version = "0.1.0"
edition = "2021"
publish = false

[dependencies]
anyhow = "1"
clap = { version = "4", features = ["derive"] }
env_logger = "0.11"
futures = "0.3"
handlebars = "5"
ipnet = "2"
log = "0.4"
netlink-packet-route = "*"
rand = "0.8"
rtnetlink = "*"
serde = { version = "1", features = ["derive"] }
serde_json = "1"
serde_yaml = "0.9"
tokio = { version = "1", features = ["rt-multi-thread", "macros"] }
virt = "*"
