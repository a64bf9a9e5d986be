[package]
name = "mutare"
version = "0.1.0"
edition = "2021"
publish = false

[dependencies]
anyhow = "1"
clap = { version = "4", features = ["derive"] }
env_logger = "0.11"
glob = "0.3"
log = "0.4"
postcard = { version = "1", features = ["alloc"] }
rand = "0.9"
rand_chacha = { version = "0.9", features = ["serde"] }
rand_distr = "0.5"
rmp-serde = "1"
ron = "*"
serde = { version = "1", features = ["derive"] }
toml = "*"
