[package]
name = "feed_relay"
version = "0.1.0"
edition = "2021"
publish = false

[dependencies]
serde_json = "1"
serenity = "0.11"
tokio = { version = "1", features = ["macros", "rt-multi-thread", "time"] }
twitter-v2 = "0.1"
