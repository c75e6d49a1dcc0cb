[package]
name = "picture_frame"
version = "0.1.0"
edition = "2021"
publish = false

[dependencies]
rand = "*"
uuid = { version = "*", features = ["v4"] }
argon2 = "*"
hex = "*"
tokio = { version = "*", features = ["rt", "macros", "sync", "time", "signal"] }
notify = "*"
dirs = "*"

[dev-dependencies]
toml = "*"
