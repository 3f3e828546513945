[package]
name = "irc_hook"
version = "0.1.0"
edition = "2021"
publish = false

[dependencies]
regex = "*"
http = "*"
anyhow = "*"
futures = "*"
tracing = "*"
irc = { version = "*", default-features = false }
reqwest = { version = "*", default-features = false }
tokio = { version = "*", default-features = false, features = ["rt-multi-thread", "macros"] }
clap = { version = "*", features = ["derive", "env"] }
config = { version = "*", default-features = false, features = ["toml"] }
tracing-subscriber = { version = "*", features = ["env-filter", "fmt"] }
