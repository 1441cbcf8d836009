[package]
name = "cradle"
version = "0.1.0"
edition = "2021"
publish = false

[dependencies]
gospel = "*"
falcompress = "*"
strength_reduce = "*"
png = "*"
clap = { version = "4", features = ["derive"] }
eyre = "*"
camino = "*"
serde = { version = "1", features = ["derive"] }
serde_json = "1"
