[package]
name = "league_replay"
version = "0.1.0"
edition = "2021"
publish = false

[dependencies]
rusqlite = { version = "*", features = ["bundled"] }
serde = { version = "*", features = ["derive"] }
serde_json = "*"
sysinfo = "*"
thiserror = "*"
uuid = { version = "*", features = ["v4"] }
zeroize = "*"
zip = { version = "*", default-features = false }
