[package]
name = "ephemera"
version = "0.1.0"
edition = "2021"
publish = false

[dependencies]
libp2p = { version = "*", default-features = false, features = ["ed25519"] }
uuid = { version = "*", features = ["v4"] }
tokio = { version = "*", features = ["rt-multi-thread", "macros", "net", "io-util", "sync", "signal", "time"] }
clap = { version = "*", features = ["derive"] }
serde = { version = "*", features = ["derive"] }
serde_json = "*"
anyhow = "*"
log = "*"
bytes = "*"
futures = "*"
futures-util = "*"
asynchronous-codec = "*"
tokio-tungstenite = "*"
prost = "*"
prost-types = "*"
