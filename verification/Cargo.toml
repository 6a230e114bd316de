[package]
name = "smart_diff"
version = "0.1.0"
edition = "2021"
publish = false

[dependencies]
serde = { version = "1", features = ["derive"] }
serde_json = "1"
regex = "1"
hungarian = "*"
edit-distance = "*"
clap = { version = "4", features = ["derive"] }
colored = "2"
console = "0.15"
indicatif = "0.17"
tokio = { version = "1", features = ["rt-multi-thread", "macros"] }
reqwest = { version = "0.12", default-features = false, features = ["json"] }
chrono = "0.4"
tracing = "0.1"
tracing-subscriber = "0.3"
thiserror = "1"
anyhow = "1"
