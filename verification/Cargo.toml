[package]
name = "twitch_chat_logger"
version = "0.1.0"
edition = "2021"
publish = false

[dependencies]
argh = "*"
chrono = "*"
colored = "*"
tokio = { version = "1", features = ["rt-multi-thread", "macros", "sync"] }
twitch-irc = "*"
