[package]
name = "vampire"
version = "0.1.0"
edition = "2021"
publish = false

[dependencies]
blake3 = "*"
chrono = "*"
clap = { version = "*", features = ["derive"] }
frakt = "*"
tokio = { version = "*", features = ["rt-multi-thread", "macros"] }
toml = "*"
xmlem = "*"
zip = "*"
