[package]
name = "hs_music"
version = "0.1.0"
edition = "2021"
publish = false

[dependencies]
serde_json = "1"
serenity = { version = "0.10", features = ["voice"] }
songbird = "0.1"
tokio = { version = "1", features = ["macros", "rt-multi-thread", "process"] }
