[package]
name = "bevy_spicy_networking"
version = "0.1.0"
edition = "2021"
publish = false

[dependencies]
async-trait = "0.1"
bevy = { version = "0.6", default-features = false }
bincode = "1"
crossbeam-channel = "0.5"
dashmap = "4"
derive_more = "0.99"
downcast-rs = "1"
mio = { version = "0.8", features = ["net", "os-poll"] }
serde = { version = "1", features = ["derive"] }
thiserror = "1"
tokio = { version = "1", features = ["rt-multi-thread", "net", "io-util", "sync", "macros"] }
typetag = "0.1"
uuid = { version = "0.8", features = ["v4"] }
