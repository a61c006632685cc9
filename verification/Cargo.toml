[package]
name = "schizoid"
version = "0.1.0"
edition = "2021"
publish = false

[dependencies]
rand = "0.9"
clap = { version = "4", features = ["derive"] }
serde = { version = "1", features = ["derive"] }
bevy = { version = "0.17", default-features = false }
lightyear = { version = "0.25", default-features = false }
