[package]
name = "xdiff"
version = "0.1.0"
edition = "2021"
publish = false

[dependencies]
anyhow = "*"
clap = { version = "*", features = ["derive"] }
console = "*"
http = "*"
reqwest = { version = "*", default-features = false }
serde = { version = "*", features = ["derive"] }
serde_json = "*"
serde_urlencoded = "*"
serde_yaml = "*"
similar = "*"
tokio = { version = "*", features = ["macros", "rt-multi-thread"] }
url = "*"
