[package]
name = "rsubdomain"
version = "0.1.0"
edition = "2021"
publish = false

[dependencies]
rand = "*"
itertools = "*"
chrono = "*"
pnet = "*"
tokio = { version = "*", features = ["rt-multi-thread", "macros", "time", "sync"] }
clap = { version = "*", features = ["derive"] }
trust-dns-resolver = "*"
reqwest = { version = "*", default-features = false }
regex = "*"
serde = { version = "*", features = ["derive"] }
serde_json = "*"
log = "*"
simplelog = "*"
