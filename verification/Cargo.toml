[package]
name = "winperf_relay"
version = "0.1.0"
edition = "2021"
publish = false

[dependencies]
eventlog = "*"
log = "0.4"
redb = "*"
reqwest = { version = "0.12", default-features = false }
serde = { version = "1", features = ["derive"] }
tokio = { version = "1", features = ["rt-multi-thread", "macros", "time", "net", "io-util"] }
toml = "*"
windows-service = "*"
windows-sys = { version = "0.59", features = ["Win32_Foundation", "Win32_Security_Cryptography"] }
