[package]
name = "structure_placement"
version = "0.1.0"
edition = "2021"
publish = false

[dependencies]
flume = "*"
valence = "0.2.0-alpha.1"

[dev-dependencies]
bincode = "1"
