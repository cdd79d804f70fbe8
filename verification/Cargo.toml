[package]
name = "freshgit"
version = "0.1.0"
edition = "2021"
publish = false

[dependencies]
clap = "3"
csv = "1"
futures = "0.3"
log = "0.4"
serde = { version = "1", features = ["derive"] }
serde_json = "1"
simple_logger = "4"
tokio = { version = "1", features = ["rt", "rt-multi-thread", "process", "io-util", "sync", "macros"] }
url = "2"
walkdir = "2"
