[package]
name = "uhpm_core"
version = "0.1.0"
edition = "2021"
publish = false

[dependencies]
chrono = "*"
flate2 = "*"
md5 = "*"
rusqlite = { version = "*", features = ["bundled"] }
serde = { version = "*", features = ["derive"] }
sha1 = "*"
sha2 = "*"
tar = "*"
toml = "*"
uuid = { version = "*", features = ["v4"] }
