[package]
name = "garcia-patcher"
version = "0.1.0"
edition = "2021"
publish = false

[dependencies]
clap = { version = "4", features = ["derive"] }
serde = { version = "1", features = ["derive"] }
toml = "*"
zip = { version = "*", default-features = false, features = ["deflate"] }
