[package]
name = "ledger_sync"
version = "0.1.0"
edition = "2021"
publish = false

[dependencies]
anyhow = "1"
chrono = "0.4"
firefly-iii = "*"
percent-encoding = "2"
reqwest = { version = "0.11", features = ["json"] }
sbanken = "=0.0.1-alpha.3"
secrecy = { version = "0.8", features = ["serde"] }
serde = { version = "1", features = ["derive"] }
structopt = "0.3"
tokio = { version = "1", features = ["macros", "rt-multi-thread"] }
