[package]
name = "galaxy_save"
version = "0.1.0"
edition = "2021"
publish = false

[dependencies]
bimap = "*"
encoding_rs = "*"
clap = { version = "*", features = ["derive"] }
serde = { version = "*", features = ["derive"] }
serde_json = "*"
parking_lot = "*"
thiserror = "*"
