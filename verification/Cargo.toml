[package]
name = "oxidlog"
version = "0.1.0"
edition = "2021"
publish = false

[dependencies]
chrono = "*"
clap = { version = "*", features = ["derive"] }
colored = "*"
dialoguer = "*"
dirs = "*"
thiserror = "*"
