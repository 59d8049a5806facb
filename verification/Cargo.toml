[package]
name = "sigil"
version = "0.1.0"
edition = "2021"
publish = false

[dependencies]
anyhow = "1"
base64 = "0.22"
blake2 = "0.10"
libc = "0.2"
rand_core = { version = "0.6", features = ["getrandom"] }
serde = { version = "1", features = ["derive"] }
serde_json = "1"
thiserror = "1"
tokio = { version = "1", features = ["rt-multi-thread", "net", "signal", "time", "macros"] }
uuid = { version = "1", features = ["v7"] }
zeroize = "1"
