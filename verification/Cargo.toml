[package]
name = "twitch_chat"
version = "0.1.0"
edition = "2021"
publish = false

[dependencies]
futures-util = "=0.3.34"
reqwest = { version = "=0.11.27", features = ["json"] }
serde = { version = "=1.0.229", features = ["derive"] }
thiserror = "=1.0.69"
tokio = { version = "=1.54.1", features = ["rt-multi-thread", "macros", "net"] }
tokio-tungstenite = { version = "=0.21.0", features = ["native-tls"] }
url = "=2.5.8"

[dev-dependencies]
regex = "=1.13.1"
