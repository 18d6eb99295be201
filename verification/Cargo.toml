[package]
name = "swarmbot_pathfind"
version = "0.1.0"
edition = "2021"
publish = false

[dependencies]
tokio = { version = "*", features = ["rt", "rt-multi-thread", "sync", "macros", "time"] }
