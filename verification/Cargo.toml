[package]
name = "dedupe_utils"
version = "0.1.0"
edition = "2021"
publish = false

[dependencies]
atty = "0.2"
blake2 = "0.10"
chrono = "0.4"
clap = { version = "4", features = ["derive"] }
data-encoding = "2"
fasthash = "0.4"
globwalker = "*"
rand = "0.8"
rayon = "1"
serde = { version = "1", features = ["derive"] }
serde_derive = "1"
serde_json = "1"
