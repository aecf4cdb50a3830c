[package]
name = "netblocks"
version = "0.1.0"
edition = "2021"
publish = false

[dependencies]
bgpkit-parser = { version = "=0.22.0", default-features = false, features = ["parser"] }
chrono = "=0.4.45"
clap = { version = "=4.6.7", features = ["derive"] }
filetime = "=0.2.29"
flate2 = "=1.1.10"
ipnet = "=2.12.2"
reqwest = { version = "=0.12.28", default-features = false, features = ["blocking"] }
serde_json = "=1.0.151"
