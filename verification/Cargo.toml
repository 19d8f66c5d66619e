[package]
name = "kerbx"
version = "0.1.0"
edition = "2021"
publish = false

[dependencies]
clap = "2"
nalgebra = "*"
protobuf = "2"
serde = { version = "1", features = ["derive"] }
serde_json = "1"
termion = "*"
tokio = { version = "1", features = ["net", "sync", "rt", "rt-multi-thread", "macros"] }
