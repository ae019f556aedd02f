[package]
name = "trace"
version = "0.1.0"
edition = "2021"
publish = false

[dependencies]
serde = { version = "1", features = ["derive"] }
serde_json = "1"
toml = "0.8"
libc = "0.2"
dirs = "5"
sysinfo = "0.33"
rusqlite = "0.32"
reqwest = { version = "0.12", features = ["json"] }
tokio = { version = "1", features = ["process", "rt-multi-thread", "macros"] }
bollard = "0.18"
zbus = "5"
