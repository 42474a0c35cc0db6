[package]
name = "knam"
version = "0.1.0"
edition = "2021"
publish = false

[dependencies]
chrono = "0.4"
clap = { version = "4", features = ["derive"] }
dunce = "1"
rand = "0.8"

[dev-dependencies]
regex = "1"
