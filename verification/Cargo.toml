[package]
name = "barq"
version = "0.1.0"
edition = "2021"
publish = false

[dependencies]
anyhow = "1"
chrono = "0.4"
clightningrpc = "0.2.0"
clightningrpc-common = "0.3.0-beta.4"
clightningrpc_gossip_map = "0.0.1-beta.5"
clightningrpc-plugin = "0.3.0-beta.8"
clightningrpc-plugin-macros = "0.3.0-beta.4"
hex = "0.4"
lightning = "0.2"
lightning-rapid-gossip-sync = "0.2"
log = "0.4"
reqwest = { version = "0.12", features = ["blocking"] }
serde = { version = "1", features = ["derive"] }
serde_json = "1"
