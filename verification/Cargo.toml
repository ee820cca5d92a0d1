[package]
name = "shared"
version = "0.1.0"
edition = "2021"
publish = false

[dependencies]
uuid = { version = "1", features = ["v4"] }
tokio = { version = "1", features = ["full"] }
bincode = { version = "2", features = ["serde"] }
serde = { version = "1", features = ["derive"] }
typetag = "0.2"
bevy = { version = "0.16", default-features = false }
