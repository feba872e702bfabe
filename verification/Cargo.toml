[package]
name = "md2nexus"
version = "0.1.0"
edition = "2021"
publish = false

[dependencies]
anyhow = "=1.0.104"
clap = { version = "=4.6.7", features = ["derive"] }
clap_complete = "=4.6.11"
markdown = "=1.0.0"
owo-colors = "=4.4.0"
prettytable-rs = { version = "=0.10.0", default-features = false }
