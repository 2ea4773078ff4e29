[package]
name = "limp"
version = "0.2.1"
edition = "2021"
publish = false

[dependencies]
clap = "4"
serde = { version = "1", features = ["derive"] }
serde_json = "1"
ureq = "2"
