[package]
name = "chat_relay"
version = "0.1.0"
edition = "2021"
publish = false

[dependencies]
anyhow = "*"
atrium-api = "*"
atrium-xrpc-client = "*"
dotenvy = "*"
serde = { version = "*", features = ["derive"] }
serde_json = "*"
serenity = "*"
tokio = { version = "*", features = ["macros", "rt-multi-thread"] }
tracing = "*"
tracing-subscriber = { version = "*", features = ["env-filter"] }
