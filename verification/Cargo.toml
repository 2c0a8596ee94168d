[package]
name = "whatever_find"
version = "0.1.0"
edition = "2021"
publish = false

[dependencies]
clap = "4"
dirs = "5"
glob = "0.3"
regex = "1"
serde = { version = "1", features = ["derive"] }
serde_json = "1"
tokio = { version = "1", features = ["rt"] }
walkdir = "2"
