[package]
name = "nsr-ssh"
version = "0.1.0"
edition = "2021"
publish = false

[dependencies]
uuid = { version = "=1.29.0", features = ["v4", "serde"] }
vt100 = "=0.15.2"
serde = { version = "=1.0.229", features = ["derive"] }
serde_json = "=1.0.154"
toml = "=1.1.8"
anyhow = "=1.0.104"
dirs = "=7.0.0"
shellexpand = "=3.1.2"
tracing = "=0.1.44"
tracing-subscriber = { version = "=0.3.23", features = ["env-filter", "fmt"] }
tokio = { version = "=1.54.1", default-features = false, features = ["rt-multi-thread", "sync", "macros", "time"] }
russh = "=0.65.0"
reqwest = { version = "=0.13.5", default-features = false, features = ["json"] }
egui = "=0.37.0"
image = { version = "=0.25.10", default-features = false, features = ["png"] }
