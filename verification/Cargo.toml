[package]
name = "viewsync"
version = "0.1.0"
edition = "2021"
publish = false

[dependencies]
bincode = "=1.3.3"
rand = "=0.8.8"
serde = { version = "=1.0.229", features = ["derive"] }
