[package]
name = "rozy"
version = "0.1.0"
edition = "2021"
publish = false

[dependencies]
addr2line = "0.25"
clap = { version = "4", features = ["derive"] }
object = "0.37"
serde = { version = "1", features = ["derive"] }
serde_json = "1"
thiserror = "2"
