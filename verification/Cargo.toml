[package]
name = "arena_core"
version = "0.1.0"
edition = "2021"
publish = false

[dependencies]
base64 = "*"
rand = "*"
zip = { version = "*", default-features = false }
reqwest = { version = "*", default-features = false }
tokio = { version = "*", features = ["rt-multi-thread", "macros", "time"] }
tokio-postgres = "*"
clap = { version = "*", features = ["derive"] }

[dev-dependencies]
serde_json = "*"
