[package]
name = "kairos"
version = "0.1.0"
edition = "2021"
publish = false

[dependencies]
similar = "*"
chrono = { version = "*", default-features = false, features = ["clock", "std"] }
serde = { version = "1", features = ["derive"] }
serde_json = "1"
toml = "*"
clap = { version = "4", features = ["derive"] }
reqwest = { version = "*", default-features = false, features = ["json"] }
tokio = { version = "1", features = ["rt-multi-thread", "macros", "time", "sync"] }
