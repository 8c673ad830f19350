[package]
name = "localpost"
version = "0.1.0"
edition = "2021"
publish = false

[dependencies]
anyhow = "1"
clap = "4"
directories = "*"
interprocess = "2"
ipnet = "2"
network-interface = "*"
rand = "*"
serde = { version = "1", features = ["derive"] }
serde_json = "1"
tokio = { version = "1", features = ["full"] }
