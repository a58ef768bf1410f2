[package]
name = "game_engine"
version = "0.1.0"
edition = "2021"
publish = false

[dependencies]
image = { version = "0.25", default-features = false, features = ["jpeg"] }
serde = { version = "1", features = ["derive"] }
bincode = "1"
uuid = { version = "1", features = ["v4", "serde"] }
dashmap = "5"
tokio = { version = "1", features = ["rt-multi-thread", "macros", "net", "sync", "time"] }
tokio-tungstenite = "0.21"
futures-util = { version = "0.3", features = ["sink"] }
lz4 = "1"
tracing = "0.1"
tracing-subscriber = "0.3"
dotenv = "0.15"
