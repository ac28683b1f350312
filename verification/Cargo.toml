[package]
name = "glitch_bridge"
version = "0.1.0"
edition = "2021"
publish = false

[dependencies]
sp-core = "*"
chrono = "*"
log = "*"
mysql_async = "*"
tokio = { version = "*", features = ["rt-multi-thread", "time", "macros"] }
