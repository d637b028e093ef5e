[package]
name = "zzh"
version = "0.1.0"
edition = "2021"
publish = false

[dependencies]
chrono = "0.4"
clap = { version = "4", features = ["derive"] }
ctrlc = "3"
dialoguer = { version = "0.11", features = ["fuzzy-select"] }
