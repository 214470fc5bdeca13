[package]
name = "sdk_claude_rust"
version = "0.1.0"
edition = "2021"
publish = false

[dependencies]
tokio = { version = "1", features = ["io-util", "macros", "process", "rt", "rt-multi-thread", "sync", "time"] }
tokio-stream = "0.1"
futures = "0.3"
async-trait = "0.1"
which = "*"
dirs = "*"
users = "*"
tempfile = "3"
dotenvy = "*"
