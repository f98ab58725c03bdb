[package]
name = "stimer"
version = "0.1.0"
edition = "2021"
publish = false

[dependencies]
chrono = "0.4"
dirs-next = "2"
rusqlite = "0.24"
structopt = "0.3"
