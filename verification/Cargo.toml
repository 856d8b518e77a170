[package]
name = "pinst"
version = "0.1.0"
edition = "2021"
publish = false

[dependencies]
regex = "1"
serde = { version = "1", features = ["derive"] }
serde_json = "1"
toml = "0.8"
which = "*"
clap = { version = "4", features = ["derive"] }
color-eyre = "*"
tokio = { version = "1", features = ["rt-multi-thread", "macros", "process", "time", "sync"] }
tokio-stream = "*"
reqwest = { version = "*", default-features = false, features = ["json", "rustls-tls"] }
crossterm = "*"
ratatui = "*"
schemars = "*"
