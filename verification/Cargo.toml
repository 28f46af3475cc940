[package]
name = "recipe_share"
version = "0.1.0"
edition = "2021"
publish = false

[dependencies]
serde = { version = "1", features = ["derive"] }
serde_json = "1"
tokio = { version = "1", features = ["rt-multi-thread", "macros", "sync", "fs", "io-std", "io-util"] }
libp2p = { version = "0.55", default-features = false, features = ["tokio", "tcp", "noise", "yamux", "mdns", "floodsub", "macros", "ed25519"] }
log = "0.4"
pretty_env_logger = "0.5"
