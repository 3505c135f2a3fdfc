[package]
name = "small_worklog"
version = "0.1.0"
edition = "2021"
publish = false

[dependencies]
rusqlite = { version = "0.31", features = ["bundled"] }
rand = "0.8"
chrono = "0.4"
dirs = "5"
